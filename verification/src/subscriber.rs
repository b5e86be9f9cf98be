//! `TracelogSubscriber`: what is emitted for spans and events.

use crate::activity_id::{ActivityId, Guid};
use crate::deferred_values::{deferred_fields, updated_all, DeferredValues};
use crate::etw::{
    in_chain_flag, in_counted_ansi_string, keyword_critical_data, keyword_measures,
    keyword_telemetry, level_error, level_info, level_verbose, level_warn, out_utf8,
};
use crate::event_writer::{
    aliases_distinct, globals_payload, lemma_with_alias_at, resolve_name, with_alias, EventData,
    FieldAlias, GlobalField, GlobalsBlob, Naming, Payload,
};
use crate::field::{names_and_values, Field, Recorded, Value};
use crate::keyword::{rules_keyword, KeywordRule, Level, LevelSet};
use crate::text::same_text;
use crate::wire::{
    cstring, put_cstring, put_slice, put_u16_le, put_u8, set_u16_le, u16_le,
};
use vstd::prelude::*;
use vstd::string::*;
use vstd::utf8::*;

verus! {

pub const WINEVENT_OPCODE_INFO: u8 = 0;

pub const WINEVENT_OPCODE_START: u8 = 1;

pub const WINEVENT_OPCODE_STOP: u8 = 2;

/// Describes the callsite of a span or an event.
#[derive(Debug, Clone, Copy)]
pub struct Metadata<'a> {
    pub name: &'a str,
    pub target: &'a str,
    pub level: Level,
}

/// The header of an ETW event.
#[derive(Debug, Clone, Copy)]
pub struct EventDescriptor {
    pub id: u16,
    pub version: u8,
    pub channel: u8,
    pub level: u8,
    pub opcode: u8,
    pub task: u16,
    pub keyword: u64,
}

/// What an ETW event is tied to.
#[derive(Debug, Clone, Copy)]
pub struct EventOptions {
    pub level: Option<u8>,
    pub activity_id: Option<Guid>,
    pub related_activity_id: Option<Guid>,
}

/// A piece of an event, in the order in which ETW reads them.
#[derive(Debug)]
pub enum DataDescriptor<'a> {
    ProviderMetadata(&'a [u8]),
    EventMetadata(Vec<u8>),
    Count(u16),
    Text(&'a str),
    Bytes(Vec<u8>),
}

/// A piece of an event, by its bytes.
pub enum Block {
    ProviderMetadata(Seq<u8>),
    EventMetadata(Seq<u8>),
    Count(u16),
    Data(Seq<u8>),
}

impl<'a> View for DataDescriptor<'a> {
    type V = Block;

    open spec fn view(&self) -> Block {
        match self {
            DataDescriptor::ProviderMetadata(bytes) => Block::ProviderMetadata(bytes@),
            DataDescriptor::EventMetadata(bytes) => Block::EventMetadata(bytes@),
            DataDescriptor::Count(n) => Block::Count(*n),
            DataDescriptor::Text(text) => Block::Data(encode_utf8(text@)),
            DataDescriptor::Bytes(bytes) => Block::Data(bytes@),
        }
    }
}

/// An event, ready to be written.
#[derive(Debug)]
pub struct Event<'a> {
    pub descriptor: EventDescriptor,
    pub options: EventOptions,
    pub data: Vec<DataDescriptor<'a>>,
}

/// An event by its contents.
#[verifier::ext_equal]
pub struct EventModel {
    pub descriptor: EventDescriptor,
    pub options: EventOptions,
    pub blocks: Seq<Block>,
}

impl<'a> View for Event<'a> {
    type V = EventModel;

    open spec fn view(&self) -> EventModel {
        EventModel {
            descriptor: self.descriptor,
            options: self.options,
            blocks: Seq::new(self.data@.len(), |i: int| self.data@[i]@),
        }
    }
}

/// The fields of an event: those recorded with it, or those deferred on its
/// span.
pub enum Records<'a> {
    Fields(&'a [Recorded]),
    Deferred(Option<&'a DeferredValues>),
}

/// The fields that the deferred values of a span add, if it has any.
pub open spec fn deferred_or_none(deferred: Option<Seq<(Field, Value)>>) -> Seq<
    (Seq<char>, Value),
> {
    match deferred {
        Some(values) => deferred_fields(values),
        None => Seq::empty(),
    }
}

impl<'a> View for Records<'a> {
    type V = Seq<(Seq<char>, Value)>;

    open spec fn view(&self) -> Seq<(Seq<char>, Value)> {
        match self {
            Records::Fields(fields) => names_and_values(fields@),
            Records::Deferred(Some(values)) => deferred_fields(values@),
            Records::Deferred(None) => Seq::empty(),
        }
    }
}

impl<'a> Records<'a> {
    /// Adds the fields to an event.
    fn record(&self, event: &mut EventData<'_>)
        ensures
            final(event)@ == old(event)@.then_part(old(event).naming().fields(self@)),
            final(event).naming() == old(event).naming(),
    {
        match self {
            Records::Fields(fields) => {
                let ghost all = names_and_values(fields@);
                let ghost naming = event.naming();
                let mut i: usize = 0;
                assert(event@ =~= old(event)@.then_part(naming.fields(all.take(0))));
                while i < fields.len()
                    invariant
                        i <= fields@.len(),
                        all == names_and_values(fields@),
                        event.naming() == naming,
                        event@ == old(event)@.then_part(naming.fields(all.take(i as int))),
                    decreases fields@.len() - i,
                {
                    let ghost before = event@;
                    event.record(&fields[i]);
                    i += 1;
                    proof {
                        assert(all.take(i as int).drop_last() =~= all.take(i - 1));
                        assert(event@ == before.then_part(
                            naming.field(all[i - 1].0, all[i - 1].1),
                        ));
                        assert(event@ =~= old(event)@.then_part(
                            naming.fields(all.take(i as int)),
                        ));
                    }
                }
                assert(all.take(i as int) =~= all);
            },
            Records::Deferred(Some(values)) => {
                values.record(event);
            },
            Records::Deferred(None) => {
                assert(event@ =~= event@.then_part(event.naming().fields(self@)));
            },
        }
    }
}

/// The type bytes of a text whose length stands before it: a counted ANSI
/// string that chains to an out flag, and UTF-8.
pub open spec fn counted_text_type() -> Seq<u8> {
    seq![0x97u8, 35u8]
}

/// The provider metadata: its own length in bytes, and the provider's name.
pub open spec fn provider_metadata_bytes(name: Seq<char>) -> Seq<u8> {
    u16_le((encode_utf8(name).len() + 3) as u16) + cstring(name)
}

/// The ETW level that a trace level is emitted at. `Debug` and `Trace` share
/// one.
pub open spec fn etw_level(level: Level) -> u8 {
    match level {
        Level::Error => 2,
        Level::Warn => 3,
        Level::Info => 4,
        Level::Debug => 5,
        Level::Trace => 5,
    }
}

/// The keyword bits that mark critical data, measures and telemetry.
pub open spec fn telemetry_keywords() -> u64 {
    0x0000_e000_0000_0000
}

/// A number of bytes as ETW's 16-bit lengths hold it.
pub open spec fn length16(len: nat) -> u16 {
    (len % 0x1_0000) as u16
}

/// The low 16 bits of a number of bytes.
fn low_u16(len: usize) -> (r: u16)
    ensures
        r == length16(len as nat),
{
    assert((len & 0xffff) == len % 0x1_0000) by (bit_vector);
    (len & 0xffff) as u16
}

/// What decides how events are emitted.
#[verifier::ext_equal]
pub struct Settings {
    pub provider_metadata: Seq<u8>,
    pub keyword_mask: u64,
    pub keyword_rules: Seq<KeywordRule>,
    pub globals: Payload,
    pub aliases: Seq<FieldAlias>,
    pub tracing_log: bool,
}

impl Settings {
    /// The keyword of an event of the given level.
    pub open spec fn keyword(self, level: Level) -> u64 {
        rules_keyword(self.keyword_rules, level) & self.keyword_mask
    }

    /// The header of an event. The channel tells older versions of ETW that
    /// this is a tracelogging event.
    pub open spec fn descriptor(self, opcode: u8, level: Level) -> EventDescriptor {
        EventDescriptor {
            id: 0,
            version: 0,
            channel: 11,
            level: etw_level(level),
            opcode,
            task: 0,
            keyword: self.keyword(level),
        }
    }

    /// How fields are named.
    pub open spec fn naming(self) -> Naming {
        Naming { aliases: self.aliases, tracing_log: self.tracing_log }
    }

    /// What an event's metadata says of its target, which stands before the
    /// other fields.
    pub open spec fn target_field(self, write_target: bool) -> Seq<u8> {
        if write_target {
            cstring(resolve_name(self.aliases, "target"@)) + counted_text_type()
        } else {
            Seq::empty()
        }
    }

    /// An event's metadata after its length: no extensions, the name, the
    /// target, the global fields and the event's own fields.
    pub open spec fn metadata_body(
        self,
        write_target: bool,
        name: Seq<char>,
        fields: Seq<(Seq<char>, Value)>,
    ) -> Seq<u8> {
        seq![0u8] + cstring(name) + self.target_field(write_target) + self.globals.metadata
            + self.naming().fields(fields).metadata
    }

    /// An event's metadata. It begins with its own length in bytes.
    pub open spec fn event_metadata(
        self,
        write_target: bool,
        name: Seq<char>,
        fields: Seq<(Seq<char>, Value)>,
    ) -> Seq<u8> {
        let body = self.metadata_body(write_target, name, fields);
        u16_le(length16(body.len() + 2)) + body
    }

    /// An event's data after its target: the values of the global fields and of
    /// the event's own fields.
    pub open spec fn event_data(self, fields: Seq<(Seq<char>, Value)>) -> Seq<u8> {
        self.globals.data + self.naming().fields(fields).data
    }

    /// The pieces of an event. The provider metadata and the event metadata
    /// stand at the head of the payload so that it can be decoded.
    pub open spec fn blocks(
        self,
        write_target: bool,
        name: Seq<char>,
        target: Seq<char>,
        fields: Seq<(Seq<char>, Value)>,
    ) -> Seq<Block> {
        let head = seq![
            Block::ProviderMetadata(self.provider_metadata),
            Block::EventMetadata(self.event_metadata(write_target, name, fields)),
        ];
        let data = Block::Data(self.event_data(fields));
        if write_target {
            head + seq![
                Block::Count(length16(encode_utf8(target).len())),
                Block::Data(encode_utf8(target)),
                data,
            ]
        } else {
            head + seq![data]
        }
    }

    /// An event.
    pub open spec fn event(
        self,
        opcode: u8,
        options: EventOptions,
        write_target: bool,
        meta: Metadata<'_>,
        fields: Seq<(Seq<char>, Value)>,
    ) -> EventModel {
        EventModel {
            descriptor: self.descriptor(opcode, meta.level),
            options,
            blocks: self.blocks(write_target, meta.name@, meta.target@, fields),
        }
    }
}

/// What is kept with a span while it is open.
pub struct SpanState {
    pub activity_id: Option<ActivityId>,
    pub deferred: Option<DeferredValues>,
}

/// What is kept with a span, by its contents.
#[verifier::ext_equal]
pub struct SpanModel {
    pub activity_id: Option<ActivityId>,
    pub deferred: Option<Seq<(Field, Value)>>,
}

impl View for SpanState {
    type V = SpanModel;

    open spec fn view(&self) -> SpanModel {
        SpanModel {
            activity_id: self.activity_id,
            deferred: match self.deferred {
                Some(values) => Some(values@),
                None => None,
            },
        }
    }
}

impl Default for SpanState {
    fn default() -> (r: SpanState)
        ensures
            r@ == (SpanModel { activity_id: None, deferred: None }),
    {
        SpanState { activity_id: None, deferred: None }
    }
}

impl SpanModel {
    /// The activity ID of the span as a GUID, if it has one.
    pub open spec fn guid(self) -> Option<Guid> {
        match self.activity_id {
            Some(id) => Some(id.0),
            None => None,
        }
    }

    /// The span once it is given its activity ID.
    pub open spec fn opened(self, activity_id: ActivityId) -> SpanModel {
        SpanModel { activity_id: Some(activity_id), ..self }
    }

    /// The span once values were recorded on it.
    pub open spec fn recorded(self, values: Seq<Recorded>) -> SpanModel {
        let before = match self.deferred {
            Some(values) => values,
            None => Seq::empty(),
        };
        SpanModel { deferred: Some(updated_all(before, values)), ..self }
    }

    /// The span once several batches of values were recorded on it.
    pub open spec fn recorded_all(self, batches: Seq<Seq<Recorded>>) -> SpanModel
        decreases batches.len(),
    {
        if batches.len() == 0 {
            self
        } else {
            self.recorded_all(batches.drop_last()).recorded(batches.last())
        }
    }
}

/// What a span's first event is tied to: the span's own activity, and that of
/// the span it was opened under.
pub open spec fn start_options(activity_id: ActivityId, parent: Option<SpanModel>) -> EventOptions {
    EventOptions {
        level: None,
        activity_id: Some(activity_id.0),
        related_activity_id: match parent {
            Some(span) => span.guid(),
            None => None,
        },
    }
}

/// What a span's last event is tied to: the activity of the span.
pub open spec fn span_options(span: Option<SpanModel>) -> EventOptions {
    EventOptions {
        level: None,
        activity_id: match span {
            Some(span) => span.guid(),
            None => None,
        },
        related_activity_id: None,
    }
}

/// What an event is tied to: the activity of the span that it happened in, which
/// is its related activity too.
pub open spec fn event_options(span: Option<SpanModel>) -> EventOptions {
    EventOptions {
        related_activity_id: span_options(span).activity_id,
        ..span_options(span)
    }
}

/// The view of a span that may be absent.
pub open spec fn span_view(span: Option<&SpanState>) -> Option<SpanModel> {
    match span {
        Some(span) => Some(span@),
        None => None,
    }
}

impl SpanState {
    /// The activity ID of the span as a GUID, if it has one.
    fn guid(&self) -> (r: Option<Guid>)
        ensures
            r == self@.guid(),
    {
        match self.activity_id {
            Some(id) => Some(id.0),
            None => None,
        }
    }
}

/// The span that a new span is opened under: the one that the thread is in if
/// the parent is left to the context, else the explicit parent if there is one.
pub fn parent_span(
    is_contextual: bool,
    current: Option<u64>,
    parent: Option<u64>,
) -> (r: Option<u64>)
    ensures
        r == if is_contextual {
            current
        } else {
            parent
        },
{
    if is_contextual {
        current
    } else {
        parent
    }
}

/// The callsite that an event is emitted under. An event that the `log` bridge
/// made has the callsite of the bridge; the one of the `log` record, where there
/// is one, takes its place.
pub fn event_callsite<'a>(
    tracing_log: bool,
    normalized: Option<Metadata<'a>>,
    own: Metadata<'a>,
) -> (r: Metadata<'a>)
    ensures
        r == (match normalized {
            Some(meta) if tracing_log => meta,
            _ => own,
        }),
{
    match normalized {
        Some(meta) if tracing_log => meta,
        _ => own,
    }
}

/// Emits spans and events as ETW TraceLogging events.
pub struct TracelogSubscriber {
    /// Provider metadata bytes. Registered once with ETW (so xperf, TDH,
    /// etc. can discover the provider schema) and emitted as the first data
    /// descriptor on every event.
    provider_metadata: Vec<u8>,
    keyword_mask: u64,
    /// Per-level keyword contributions. OR'd together for every event whose
    /// level is in the rule's level set.
    keyword_rules: Vec<KeywordRule>,
    /// Pre-rendered metadata + data blob for the constant global fields.
    global_fields: GlobalsBlob,
    /// Field renames.
    field_aliases: Vec<FieldAlias>,
    /// Whether `log` records are bridged into the trace.
    tracing_log: bool,
}

impl View for TracelogSubscriber {
    type V = Settings;

    closed spec fn view(&self) -> Settings {
        Settings {
            provider_metadata: self.provider_metadata@,
            keyword_mask: self.keyword_mask,
            keyword_rules: self.keyword_rules@,
            globals: self.global_fields@,
            aliases: self.field_aliases@,
            tracing_log: self.tracing_log,
        }
    }
}

impl TracelogSubscriber {
    /// No field has two aliases.
    #[verifier::type_invariant]
    spec fn inv(self) -> bool {
        aliases_distinct(self.field_aliases@)
    }

    /// Creates a new subscriber for the provider named `name`.
    pub fn new(name: &str, tracing_log: bool) -> (r: TracelogSubscriber)
        requires
            encode_utf8(name@).len() + 3 <= u16::MAX,
        ensures
            r@ == (Settings {
                provider_metadata: provider_metadata_bytes(name@),
                keyword_mask: u64::MAX,
                keyword_rules: Seq::empty(),
                globals: Payload::empty(),
                aliases: Seq::empty(),
                tracing_log,
            }),
    {
        let mut provider_metadata: Vec<u8> = Vec::new();
        put_u16_le(&mut provider_metadata, (2 + name.as_bytes().len() + 1) as u16);
        put_cstring(&mut provider_metadata, name);
        assert(provider_metadata@ =~= provider_metadata_bytes(name@));
        TracelogSubscriber {
            provider_metadata,
            keyword_mask: u64::MAX,
            keyword_rules: Vec::new(),
            global_fields: GlobalsBlob::default(),
            field_aliases: Vec::new(),
            tracing_log,
        }
    }

    /// The bytes to register with ETW.
    pub fn provider_metadata(&self) -> (r: &[u8])
        ensures
            r@ == self@.provider_metadata,
    {
        self.provider_metadata.as_slice()
    }

    /// Whether `log` records are bridged into the trace.
    pub fn tracing_log(&self) -> (r: bool)
        ensures
            r == self@.tracing_log,
    {
        self.tracing_log
    }

    /// If some events are by default marked with telemetry keywords, this allows an opt out.
    pub fn enable_telemetry_events(&mut self, enabled: bool)
        ensures
            final(self)@ == (Settings {
                keyword_mask: if enabled {
                    u64::MAX
                } else {
                    !telemetry_keywords()
                },
                ..old(self)@
            }),
    {
        proof {
            use_type_invariant(&*self);
            assert(0x0000_8000_0000_0000u64 | 0x0000_4000_0000_0000u64 | 0x0000_2000_0000_0000u64
                == 0x0000_e000_0000_0000u64) by (bit_vector);
        }
        self.keyword_mask = if enabled {
            u64::MAX
        } else {
            !(keyword_critical_data() | keyword_measures() | keyword_telemetry())
        };
    }

    /// Adds a [`KeywordRule`]. Multiple rules accumulate (their keywords are
    /// OR'd together for any event whose level is in the rule's level set).
    pub fn add_keyword(&mut self, rule: KeywordRule)
        ensures
            final(self)@ == (Settings {
                keyword_rules: old(self)@.keyword_rules.push(rule),
                ..old(self)@
            }),
    {
        proof {
            use_type_invariant(&*self);
        }
        let mut rules: Vec<KeywordRule> = Vec::new();
        std::mem::swap(&mut rules, &mut self.keyword_rules);
        rules.push(rule);
        self.keyword_rules = rules;
    }

    /// Sets the fields that every event includes, in place of those set before.
    pub fn set_global_fields(&mut self, fields: &[GlobalField])
        ensures
            final(self)@ == (Settings { globals: globals_payload(fields@), ..old(self)@ }),
    {
        proof {
            use_type_invariant(&*self);
        }
        self.global_fields = GlobalsBlob::from_fields(fields);
    }

    /// Adds (or replaces) a field rename. See [`FieldAlias`].
    pub fn set_field_alias(&mut self, alias: FieldAlias)
        ensures
            final(self)@ == (Settings {
                aliases: with_alias(old(self)@.aliases, alias),
                ..old(self)@
            }),
            aliases_distinct(final(self)@.aliases),
    {
        proof {
            use_type_invariant(&*self);
        }
        let mut aliases: Vec<FieldAlias> = Vec::new();
        std::mem::swap(&mut aliases, &mut self.field_aliases);
        let ghost before = aliases@;
        let mut i: usize = 0;
        while i < aliases.len() && !same_text(aliases[i].from.as_str(), alias.from.as_str())
            invariant
                i <= aliases@.len(),
                aliases@ == before,
                forall|j: int| 0 <= j < i ==> (#[trigger] before[j]).from@ != alias.from@,
            decreases aliases@.len() - i,
        {
            i += 1;
        }
        proof {
            lemma_with_alias_at(before, alias, i as int);
        }
        if i < aliases.len() {
            aliases[i].to = alias.to;
        } else {
            aliases.push(alias);
        }
        assert(aliases@ =~= with_alias(before, alias));
        self.field_aliases = aliases;
    }

    /// The keyword of an event of the given level.
    pub fn resolve_keyword(&self, level: Level) -> (k: u64)
        ensures
            k == self@.keyword(level),
    {
        let bit: LevelSet = LevelSet::from_level(level);
        let rules: &[KeywordRule] = self.keyword_rules.as_slice();
        let mut k: u64 = 0;
        let mut i: usize = 0;
        while i < rules.len()
            invariant
                i <= rules@.len(),
                bit@ == set![level],
                k == rules_keyword(rules@.take(i as int), level),
            decreases rules@.len() - i,
        {
            let rule: KeywordRule = rules[i];
            proof {
                assert(rules@.take(i + 1).drop_last() =~= rules@.take(i as int));
                assert(bit@.subset_of(rule.levels@) <==> rule.levels@.contains(level)) by {
                    assert(bit@.contains(level));
                }
                assert(k | 0u64 == k) by (bit_vector);
            }
            if rule.levels.contains(bit) {
                k |= rule.keyword;
            }
            i += 1;
        }
        assert(rules@.take(i as int) =~= rules@);
        k & self.keyword_mask
    }

    /// The header of an event, by which ETW says whether the event is wanted.
    pub fn event_descriptor(&self, opcode: u8, level: Level) -> (r: EventDescriptor)
        ensures
            r == self@.descriptor(opcode, level),
    {
        let etw_level: u8 = match level {
            Level::Error => level_error(),
            Level::Warn => level_warn(),
            Level::Info => level_info(),
            Level::Debug | Level::Trace => level_verbose(),
        };
        EventDescriptor {
            id: 0,
            version: 0,
            channel: 11,
            level: etw_level,
            opcode,
            task: 0,
            keyword: self.resolve_keyword(level),
        }
    }

    /// Builds the event for a span or an event, if ETW wants it: `enabled` is
    /// its answer to the event's header.
    pub fn write_event<'a>(
        &'a self,
        opcode: u8,
        options: EventOptions,
        write_target: bool,
        meta: Metadata<'a>,
        records: &Records<'_>,
        enabled: bool,
    ) -> (r: Option<Event<'a>>)
        ensures
            r is Some <==> enabled,
            r matches Some(event) ==> event@ == self@.event(
                opcode,
                options,
                write_target,
                meta,
                records@,
            ),
    {
        let descriptor: EventDescriptor = self.event_descriptor(opcode, meta.level);
        if !enabled {
            return None;
        }
        let mut event_data: EventData<'_> = EventData::new(
            self.field_aliases.as_slice(),
            self.tracing_log,
        );
        put_u16_le(&mut event_data.metadata, 0);  // reserve space for the size
        put_u8(&mut event_data.metadata, 0);  // no extensions
        put_cstring(&mut event_data.metadata, meta.name);
        if write_target {
            // Auto-emitted `target` field, with alias applied so consumers
            // can rename it (e.g. to `TaskName`).
            let target_name: &str = event_data.resolve("target");
            put_cstring(&mut event_data.metadata, target_name);
            assert(23u8 | 0x80u8 == 0x97u8) by (bit_vector);
            put_u8(&mut event_data.metadata, in_counted_ansi_string() | in_chain_flag());
            put_u8(&mut event_data.metadata, out_utf8());
        }
        put_slice(&mut event_data.metadata, self.global_fields.metadata.as_slice());
        put_slice(&mut event_data.data, self.global_fields.data.as_slice());
        records.record(&mut event_data);

        let ghost body = self@.metadata_body(write_target, meta.name@, records@);
        assert(event_data.metadata@ =~= u16_le(0) + body);
        assert(event_data.data@ =~= self@.event_data(records@));

        // Update the length.
        let event_metadata_len: u16 = low_u16(event_data.metadata.len());
        set_u16_le(&mut event_data.metadata, event_metadata_len);
        assert(event_data.metadata@ =~= self@.event_metadata(write_target, meta.name@, records@));

        // TraceLogging events require both the provider-metadata and
        // per-event-metadata data descriptors at the head of the payload so
        // that TDH can decode them.
        let mut data: Vec<DataDescriptor<'a>> = Vec::new();
        data.push(DataDescriptor::ProviderMetadata(self.provider_metadata.as_slice()));
        data.push(DataDescriptor::EventMetadata(event_data.metadata));
        if write_target {
            data.push(DataDescriptor::Count(low_u16(meta.target.as_bytes().len())));
            data.push(DataDescriptor::Text(meta.target));
        }
        data.push(DataDescriptor::Bytes(event_data.data));
        let event: Event<'a> = Event { descriptor, options, data };
        assert(event@ =~= self@.event(opcode, options, write_target, meta, records@));
        Some(event)
    }

    /// A span was opened. Gives it its activity ID, and builds the event that
    /// says so. See [`ActivityId::of_attributes`] for the activity ID.
    pub fn on_new_span<'a>(
        &'a self,
        meta: Metadata<'a>,
        fields: &[Recorded],
        activity_id: ActivityId,
        parent: Option<&SpanState>,
        span: &mut SpanState,
        enabled: bool,
    ) -> (r: Option<Event<'a>>)
        requires
            old(span).activity_id is None,
        ensures
            final(span)@ == old(span)@.opened(activity_id),
            r is Some <==> enabled,
            r matches Some(event) ==> event@ == self@.event(
                WINEVENT_OPCODE_START,
                start_options(activity_id, span_view(parent)),
                true,
                meta,
                names_and_values(fields@),
            ),
    {
        let related_activity_id: Option<Guid> = match parent {
            Some(parent) => parent.guid(),
            None => None,
        };
        span.activity_id = Some(activity_id);
        self.write_event(
            WINEVENT_OPCODE_START,
            EventOptions { level: None, activity_id: Some(activity_id.0), related_activity_id },
            true,
            meta,
            &Records::Fields(fields),
            enabled,
        )
    }

    /// Values were recorded on an open span. Keeps them until the span closes.
    pub fn on_record(&self, span: &mut SpanState, values: &[Recorded])
        ensures
            final(span)@ == old(span)@.recorded(values@),
    {
        let mut deferred: DeferredValues = match span.deferred.take() {
            Some(deferred) => deferred,
            None => DeferredValues::default(),
        };
        deferred.store(values);
        span.deferred = Some(deferred);
    }

    /// An event happened, within a span or outside any. Builds the event for
    /// it. See [`event_callsite`] for the callsite.
    pub fn on_event<'a>(
        &'a self,
        meta: Metadata<'a>,
        fields: &[Recorded],
        span: Option<&SpanState>,
        enabled: bool,
    ) -> (r: Option<Event<'a>>)
        ensures
            r is Some <==> enabled,
            r matches Some(event) ==> event@ == self@.event(
                WINEVENT_OPCODE_INFO,
                event_options(span_view(span)),
                true,
                meta,
                names_and_values(fields@),
            ),
    {
        let activity_id: Option<Guid> = match span {
            Some(span) => span.guid(),
            None => None,
        };
        self.write_event(
            WINEVENT_OPCODE_INFO,
            EventOptions { level: None, activity_id, related_activity_id: activity_id },
            true,
            meta,
            &Records::Fields(fields),
            enabled,
        )
    }

    /// A span was closed. Builds the event that says so, with the values that
    /// were recorded while it was open.
    pub fn on_close<'a>(&'a self, meta: Metadata<'a>, span: &SpanState, enabled: bool) -> (r: Option<
        Event<'a>,
    >)
        requires
            span.activity_id is Some,
        ensures
            r is Some <==> enabled,
            r matches Some(event) ==> event@ == self@.event(
                WINEVENT_OPCODE_STOP,
                span_options(Some(span@)),
                false,
                meta,
                deferred_or_none(span@.deferred),
            ),
    {
        self.write_event(
            WINEVENT_OPCODE_STOP,
            EventOptions { level: None, activity_id: span.guid(), related_activity_id: None },
            false,
            meta,
            &Records::Deferred(span.deferred.as_ref()),
            enabled,
        )
    }
}

} // verus!
