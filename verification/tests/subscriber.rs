use win_etw_tracing::activity_id::{extract_activity_id_attr, ActivityId, Attribute, Guid};
use win_etw_tracing::field::{Field, FieldValue, Recorded};
use win_etw_tracing::subscriber::{
    event_callsite, parent_span, DataDescriptor, Event, EventOptions, Metadata, Records, SpanState,
    WINEVENT_OPCODE_INFO, WINEVENT_OPCODE_START, WINEVENT_OPCODE_STOP,
};
use win_etw_tracing::{FieldAlias, GlobalField, KeywordRule, Level, LevelSet, TracelogSubscriber};

const PROVIDER_GUID: Guid = Guid {
    data1: 0xe1c71d95,
    data2: 0x7bbc,
    data3: 0x5f48,
    data4: [0xa9, 0x2b, 0x8a, 0xaa, 0x0b, 0x52, 0x91, 0x58],
};

const PROVIDER_NAME: &str = "rust-test-provider";

const TARGET: &str = "win_etw_tracing::subscriber::tests";

fn recorded(index: usize, name: &str, value: FieldValue) -> Recorded {
    Recorded { field: Field { callsite: 7, index, name: name.to_string() }, value }
}

fn message(text: &str) -> Recorded {
    recorded(0, "message", FieldValue::Debug(text.to_string()))
}

fn meta(name: &'static str, level: Level) -> Metadata<'static> {
    Metadata { name, target: TARGET, level }
}

/// The metadata and the data of an event that has a target.
fn with_target<'e>(event: &'e Event<'_>) -> (&'e [u8], &'e [u8]) {
    assert_eq!(event.data.len(), 5);
    let mut provider = vec![21u8, 0];
    provider.extend_from_slice(b"rust-test-provider\0");
    assert!(matches!(&event.data[0], DataDescriptor::ProviderMetadata(b) if *b == provider));
    assert!(matches!(&event.data[2], DataDescriptor::Count(n) if *n as usize == TARGET.len()));
    assert!(matches!(&event.data[3], DataDescriptor::Text(t) if *t == TARGET));
    match (&event.data[1], &event.data[4]) {
        (DataDescriptor::EventMetadata(m), DataDescriptor::Bytes(d)) => (m, d),
        _ => panic!("wrong pieces"),
    }
}

/// The metadata and the data of an event that has no target.
fn without_target<'e>(event: &'e Event<'_>) -> (&'e [u8], &'e [u8]) {
    assert_eq!(event.data.len(), 3);
    assert!(matches!(&event.data[0], DataDescriptor::ProviderMetadata(b) if b.len() == 21));
    match (&event.data[1], &event.data[2]) {
        (DataDescriptor::EventMetadata(m), DataDescriptor::Bytes(d)) => (m, d),
        _ => panic!("wrong pieces"),
    }
}

/// Event metadata with its length in front.
fn sized(body: &[u8]) -> Vec<u8> {
    let len = body.len() + 2;
    let mut bytes = vec![(len % 256) as u8, (len / 256) as u8];
    bytes.extend_from_slice(body);
    bytes
}

#[test]
fn basic() {
    let layer = TracelogSubscriber::new(PROVIDER_NAME, false);

    let fields = [
        message("hi what"),
        recorded(1, "foo", FieldValue::Signed(123)),
        recorded(2, "bar", FieldValue::Signed(456)),
    ];
    let event = layer.on_event(meta("event a", Level::Info), &fields, None, true).unwrap();
    assert_eq!(event.descriptor.level, 4);
    assert_eq!(event.descriptor.opcode, 0);
    assert_eq!(event.descriptor.channel, 11);
    assert_eq!(event.options.activity_id, None);
    assert_eq!(event.options.related_activity_id, None);
    let (metadata, data) = with_target(&event);
    assert_eq!(
        metadata,
        sized(b"\0event a\0target\0\x97\x23message\0\x82\x23foo\0\x09bar\0\x09")
    );
    assert_eq!(data, b"hi what\0\x7b\0\0\0\0\0\0\0\xc8\x01\0\0\0\0\0\0");

    let fields = [
        recorded(0, "foo", FieldValue::Boolean(true)),
        recorded(1, "bar", FieldValue::Debug("e1c71d95-7bbc-5f48-a92b8aaa0b529158".to_string())),
    ];
    let event = layer.on_event(meta("event b", Level::Error), &fields, None, true).unwrap();
    assert_eq!(event.descriptor.level, 2);
    let (metadata, data) = with_target(&event);
    assert_eq!(metadata, sized(b"\0event b\0target\0\x97\x23foo\0\x04\x03bar\0\x82\x23"));
    assert_eq!(data, b"\x01e1c71d95-7bbc-5f48-a92b8aaa0b529158\0");

    let err = anyhow::Error::msg("failed").context("really failed").context("this thing failed");
    let mut chain = err.chain().map(|e| e.to_string());
    let fields = [
        message("disaster"),
        recorded(
            1,
            "error",
            FieldValue::Error { message: chain.next().unwrap(), sources: chain.collect() },
        ),
    ];
    let event = layer.on_event(meta("event c", Level::Error), &fields, None, true).unwrap();
    let (metadata, data) = with_target(&event);
    assert_eq!(metadata, sized(b"\0event c\0target\0\x97\x23message\0\x82\x23error\0\x82\x23"));
    assert_eq!(data, b"disaster\0this thing failed: really failed: failed\0");
}

#[test]
fn span() {
    let layer = TracelogSubscriber::new(PROVIDER_NAME, false);

    let geo_id = ActivityId(PROVIDER_GUID);
    let mut geo = SpanState::default();
    let fields = [recorded(0, "bar", FieldValue::Signed(456))];
    let start =
        layer.on_new_span(meta("geo", Level::Info), &fields, geo_id, None, &mut geo, true).unwrap();
    assert_eq!(start.descriptor.opcode, WINEVENT_OPCODE_START);
    assert_eq!(start.options.activity_id, Some(PROVIDER_GUID));
    assert_eq!(start.options.related_activity_id, None);
    let (metadata, data) = with_target(&start);
    assert_eq!(metadata, sized(b"\0geo\0target\0\x97\x23bar\0\x09"));
    assert_eq!(data, b"\xc8\x01\0\0\0\0\0\0");

    let dude_id = ActivityId(Guid { data1: 1, ..PROVIDER_GUID });
    let mut dude = SpanState::default();
    let fields = [recorded(0, "baz", FieldValue::Signed(789))];
    let start = layer
        .on_new_span(meta("dude", Level::Info), &fields, dude_id, Some(&geo), &mut dude, true)
        .unwrap();
    assert_eq!(start.options.activity_id, Some(dude_id.0));
    assert_eq!(start.options.related_activity_id, Some(PROVIDER_GUID));

    let fields = [message("test")];
    let event = layer.on_event(meta("event", Level::Info), &fields, Some(&dude), true).unwrap();
    assert_eq!(event.descriptor.opcode, WINEVENT_OPCODE_INFO);
    assert_eq!(event.options.activity_id, Some(dude_id.0));
    assert_eq!(event.options.related_activity_id, Some(dude_id.0));

    layer.on_record(&mut dude, &[recorded(1, "later", FieldValue::Boolean(true))]);
    layer.on_record(
        &mut dude,
        &[recorded(1, "later", FieldValue::Str("wait no it's a string now".to_string()))],
    );

    let stop = layer.on_close(meta("dude", Level::Info), &dude, true).unwrap();
    assert_eq!(stop.descriptor.opcode, WINEVENT_OPCODE_STOP);
    assert_eq!(stop.options.activity_id, Some(dude_id.0));
    assert_eq!(stop.options.related_activity_id, None);
    let (metadata, data) = without_target(&stop);
    assert_eq!(metadata, sized(b"\0dude\0later\0\x82\x23"));
    assert_eq!(data, b"wait no it's a string now\0");

    let stop = layer.on_close(meta("geo", Level::Info), &geo, true).unwrap();
    let (metadata, data) = without_target(&stop);
    assert_eq!(metadata, sized(b"\0geo\0"));
    assert_eq!(data, b"");
}

#[test]
fn global() {
    let mut layer = TracelogSubscriber::new(PROVIDER_NAME, false);
    let fields = [message("test globals"), recorded(1, "a_field", FieldValue::Signed(123))];
    let event = layer.on_event(meta("e", Level::Info), &fields, None, true).unwrap();
    let (metadata, data) = with_target(&event);
    assert_eq!(metadata, sized(b"\0e\0target\0\x97\x23message\0\x82\x23a_field\0\x09"));
    assert_eq!(data, b"test globals\0\x7b\0\0\0\0\0\0\0");

    let global = vec![GlobalField::new("global", "some value")];
    layer.set_global_fields(&global);
    let fields = [message("test globals modify"), recorded(1, "a_field", FieldValue::Signed(456))];
    let event = layer.on_event(meta("e", Level::Info), &fields, None, true).unwrap();
    let (metadata, data) = with_target(&event);
    assert_eq!(
        metadata,
        sized(b"\0e\0target\0\x97\x23global\0\x82\x23message\0\x82\x23a_field\0\x09")
    );
    assert_eq!(data, b"some value\0test globals modify\0\xc8\x01\0\0\0\0\0\0");

    let mut state = SpanState::default();
    let fields = [recorded(0, "span_field", FieldValue::Str("abc".to_string()))];
    let start = layer
        .on_new_span(
            meta("span with globals", Level::Info),
            &fields,
            ActivityId(PROVIDER_GUID),
            None,
            &mut state,
            true,
        )
        .unwrap();
    let (metadata, data) = with_target(&start);
    assert_eq!(
        metadata,
        sized(b"\0span with globals\0target\0\x97\x23global\0\x82\x23span_field\0\x82\x23")
    );
    assert_eq!(data, b"some value\0abc\0");

    let global =
        vec![GlobalField::new("global", "new value"), GlobalField::new("global2", "value")];
    layer.set_global_fields(&global);
    let fields =
        [message("test globals modify again"), recorded(1, "a_field", FieldValue::Signed(789))];
    let event = layer.on_event(meta("e", Level::Info), &fields, Some(&state), true).unwrap();
    let (metadata, data) = with_target(&event);
    assert_eq!(
        metadata,
        sized(
            b"\0e\0target\0\x97\x23global\0\x82\x23global2\0\x82\x23message\0\x82\x23a_field\0\x09"
        )
    );
    assert_eq!(data, b"new value\0value\0test globals modify again\0\x15\x03\0\0\0\0\0\0");

    let stop = layer.on_close(meta("span with globals", Level::Info), &state, true).unwrap();
    let (metadata, data) = without_target(&stop);
    assert_eq!(metadata, sized(b"\0span with globals\0global\0\x82\x23global2\0\x82\x23"));
    assert_eq!(data, b"new value\0value\0");
}

#[test]
fn aliases() {
    let mut layer = TracelogSubscriber::new(PROVIDER_NAME, false);
    layer.set_field_alias(FieldAlias::new("target", "TaskName"));
    layer.set_field_alias(FieldAlias::new("message", "msg"));
    let fields = [message("hello world"), recorded(1, "foo", FieldValue::Signed(1))];
    let event = layer.on_event(meta("e", Level::Info), &fields, None, true).unwrap();
    let (metadata, data) = with_target(&event);
    assert_eq!(metadata, sized(b"\0e\0TaskName\0\x97\x23msg\0\x82\x23foo\0\x09"));
    assert_eq!(data, b"hello world\0\x01\0\0\0\0\0\0\0");
}

#[test]
fn keyword_rules() {
    let mut layer = TracelogSubscriber::new(PROVIDER_NAME, false);
    layer.add_keyword(KeywordRule { keyword: 0x1, levels: LevelSet::all() });
    layer.add_keyword(KeywordRule {
        keyword: 0x10,
        levels: LevelSet::trace() | LevelSet::debug(),
    });
    assert_eq!(layer.resolve_keyword(Level::Info), 0x1);
    assert_eq!(layer.resolve_keyword(Level::Trace), 0x11);
    assert_eq!(layer.resolve_keyword(Level::Debug), 0x11);
}

#[test]
fn provider_metadata_holds_its_length_and_name() {
    let layer = TracelogSubscriber::new("ab", true);
    assert_eq!(layer.provider_metadata(), [5, 0, b'a', b'b', 0]);
    assert!(layer.tracing_log());
    let long = "x".repeat(65532);
    let layer = TracelogSubscriber::new(&long, false);
    assert_eq!(layer.provider_metadata()[..3], [0xff, 0xff, b'x']);
    assert_eq!(layer.provider_metadata().len(), 65535);
    assert!(!layer.tracing_log());
}

#[test]
fn telemetry_keywords_can_be_masked() {
    let mut layer = TracelogSubscriber::new("p", false);
    layer.add_keyword(KeywordRule { keyword: 0xffff_ffff_ffff_ffff, levels: LevelSet::all() });
    assert_eq!(layer.resolve_keyword(Level::Warn), 0xffff_ffff_ffff_ffff);
    layer.enable_telemetry_events(false);
    assert_eq!(layer.resolve_keyword(Level::Warn), 0xffff_1fff_ffff_ffff);
    assert_eq!(layer.event_descriptor(1, Level::Warn).keyword, 0xffff_1fff_ffff_ffff);
    layer.enable_telemetry_events(true);
    assert_eq!(layer.resolve_keyword(Level::Warn), 0xffff_ffff_ffff_ffff);
}

#[test]
fn descriptor_of_each_level() {
    let mut layer = TracelogSubscriber::new("p", false);
    layer.add_keyword(KeywordRule { keyword: 0x10, levels: LevelSet::trace() });
    let d = layer.event_descriptor(2, Level::Error);
    assert_eq!((d.id, d.version, d.channel, d.level, d.opcode, d.task, d.keyword), (0, 0, 11, 2, 2, 0, 0));
    assert_eq!(layer.event_descriptor(0, Level::Warn).level, 3);
    assert_eq!(layer.event_descriptor(0, Level::Info).level, 4);
    let debug = layer.event_descriptor(0, Level::Debug);
    let trace = layer.event_descriptor(0, Level::Trace);
    assert_eq!((debug.level, debug.keyword), (5, 0));
    assert_eq!((trace.level, trace.keyword), (5, 0x10));
}

#[test]
fn nothing_is_written_when_disabled() {
    let layer = TracelogSubscriber::new("p", false);
    let m = Metadata { name: "n", target: "t", level: Level::Info };
    assert!(layer.on_event(m, &[], None, false).is_none());
    let mut state = SpanState::default();
    let id = ActivityId(PROVIDER_GUID);
    assert!(layer.on_new_span(m, &[], id, None, &mut state, false).is_none());
    assert_eq!(state.activity_id.unwrap().0, PROVIDER_GUID);
    assert!(layer.on_close(m, &state, false).is_none());
}

#[test]
fn alias_is_replaced_and_leaves_globals_alone() {
    let mut layer = TracelogSubscriber::new(PROVIDER_NAME, false);
    layer.set_global_fields(&[GlobalField::new("message", "g")]);
    layer.set_field_alias(FieldAlias::new("message", "first"));
    layer.set_field_alias(FieldAlias::new("other", "x"));
    layer.set_field_alias(FieldAlias::new("message".to_string(), "second"));
    let fields = [message("m")];
    let event = layer.on_event(meta("e", Level::Info), &fields, None, true).unwrap();
    let (metadata, data) = with_target(&event);
    assert_eq!(metadata, sized(b"\0e\0target\0\x97\x23message\0\x82\x23second\0\x82\x23"));
    assert_eq!(data, b"g\0m\0");
}

#[test]
fn log_fields_are_skipped_with_the_bridge() {
    let fields = [
        message("m"),
        recorded(1, "log.target", FieldValue::Str("t".to_string())),
        recorded(2, "log", FieldValue::Unsigned(1)),
        recorded(3, "logs.x", FieldValue::Boolean(false)),
    ];
    let layer = TracelogSubscriber::new(PROVIDER_NAME, true);
    let event = layer.on_event(meta("e", Level::Info), &fields, None, true).unwrap();
    let (metadata, data) = with_target(&event);
    assert_eq!(
        metadata,
        sized(b"\0e\0target\0\x97\x23message\0\x82\x23log\0\x8a\x04logs.x\0\x04\x03")
    );
    assert_eq!(data, b"m\0\x01\0\0\0\0\0\0\0\0");

    let layer = TracelogSubscriber::new(PROVIDER_NAME, false);
    let event = layer.on_event(meta("e", Level::Info), &fields, None, true).unwrap();
    let (_, data) = with_target(&event);
    assert_eq!(data, b"m\0t\0\x01\0\0\0\0\0\0\0\0");
}

#[test]
fn lengths_wrap_at_16_bits() {
    let layer = TracelogSubscriber::new("p", false);
    let name = "n".repeat(65536);
    let target = "t".repeat(65539);
    let m = Metadata { name: &name, target: &target, level: Level::Info };
    let event = layer.on_event(m, &[], None, true).unwrap();
    assert!(matches!(&event.data[2], DataDescriptor::Count(3)));
    match &event.data[1] {
        DataDescriptor::EventMetadata(b) => {
            assert_eq!(b.len(), 65536 + 4 + 9);
            assert_eq!(b[..3], [13, 0, 0]);
        }
        _ => panic!("wrong piece"),
    }
}

#[test]
fn write_event_carries_the_options() {
    let layer = TracelogSubscriber::new(PROVIDER_NAME, false);
    let options = EventOptions {
        level: Some(1),
        activity_id: None,
        related_activity_id: Some(PROVIDER_GUID),
    };
    let records = Records::Deferred(None);
    let event =
        layer.write_event(9, options, false, meta("e", Level::Info), &records, true).unwrap();
    assert_eq!(event.descriptor.opcode, 9);
    assert_eq!(event.options.level, Some(1));
    assert_eq!(event.options.related_activity_id, Some(PROVIDER_GUID));
    let (metadata, data) = without_target(&event);
    assert_eq!(metadata, sized(b"\0e\0"));
    assert_eq!(data, b"");
}

#[test]
fn parent_of_a_new_span() {
    assert_eq!(parent_span(true, Some(1), Some(2)), Some(1));
    assert_eq!(parent_span(true, None, Some(2)), None);
    assert_eq!(parent_span(false, Some(1), Some(2)), Some(2));
    assert_eq!(parent_span(false, Some(1), None), None);
}

#[test]
fn supplied_activity_id_is_used() {
    let attrs = [Attribute {
        name: "activity_id".to_string(),
        rendered: "e1c71d95-7bbc-5f48-a92b-8aaa0b529158".to_string(),
    }];
    let supplied = extract_activity_id_attr(&attrs);
    assert_eq!(supplied, Some(PROVIDER_GUID));
    let layer = TracelogSubscriber::new("p", false);
    let mut state = SpanState::default();
    let m = Metadata { name: "n", target: "t", level: Level::Info };
    let id = ActivityId::for_new_span(supplied);
    let event = layer.on_new_span(m, &[], id, None, &mut state, true).unwrap();
    assert_eq!(event.options.activity_id, Some(PROVIDER_GUID));
    assert_eq!(ActivityId::of_attributes(&attrs).0, PROVIDER_GUID);
}

#[test]
fn attributes_without_an_activity_id_leave_it_to_the_thread() {
    let attrs = [
        Attribute { name: "activity_id".to_string(), rendered: "not a GUID".to_string() },
        Attribute {
            name: "other".to_string(),
            rendered: "e1c71d95-7bbc-5f48-a92b-8aaa0b529158".to_string(),
        },
    ];
    let thread = ActivityId::for_new_span(None);
    assert_eq!(ActivityId::of_attributes(&attrs).0, thread.0);
    assert_eq!(ActivityId::of_attributes(&[]).0, thread.0);
}

#[test]
fn callsite_of_a_bridged_event() {
    let own = meta("own", Level::Info);
    let log = meta("log", Level::Warn);
    assert_eq!(event_callsite(true, Some(log), own).name, "log");
    assert_eq!(event_callsite(true, None, own).name, "own");
    assert_eq!(event_callsite(false, Some(log), own).name, "own");
    assert_eq!(event_callsite(false, None, own).name, "own");
}

#[test]
fn closing_event_lists_fields_as_first_recorded() {
    let layer = TracelogSubscriber::new(PROVIDER_NAME, false);
    let mut state = SpanState::default();
    let m = meta("s", Level::Info);
    layer.on_new_span(m, &[], ActivityId(PROVIDER_GUID), None, &mut state, true).unwrap();
    layer.on_record(
        &mut state,
        &[
            recorded(2, "b", FieldValue::Boolean(true)),
            recorded(1, "a", FieldValue::Str("x".to_string())),
        ],
    );
    layer.on_record(
        &mut state,
        &[
            recorded(3, "c", FieldValue::Signed(1)),
            recorded(2, "b", FieldValue::Debug("y".to_string())),
        ],
    );
    let stop = layer.on_close(m, &state, true).unwrap();
    let (metadata, data) = without_target(&stop);
    assert_eq!(metadata, sized(b"\0s\0b\0\x82\x23a\0\x82\x23c\0\x09"));
    assert_eq!(data, b"y\0x\0\x01\0\0\0\0\0\0\0");
}
