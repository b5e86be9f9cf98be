use bytes::BufMut;
use win_etw_tracing::activity_id::{
    extract_activity_id_attr, is_activity_id_field, ActivityId, ActivityIdVisitor, Attribute, Guid,
};
use win_etw_tracing::deferred_values::{DeferredValue, DeferredValues};
use win_etw_tracing::event_writer::{EventData, GlobalsBlob};
use win_etw_tracing::field::{Field, FieldValue, Recorded};
use win_etw_tracing::text::{same_text, starts_with};
use win_etw_tracing::wire::{
    put_cstring, put_i64_le, put_slice, put_u16_le, put_u64_le, put_u8, set_u16_le,
};
use win_etw_tracing::{FieldAlias, GlobalField, Level, LevelSet};

fn attribute(name: &str, rendered: &str) -> Attribute {
    Attribute { name: name.to_string(), rendered: rendered.to_string() }
}

fn field(index: usize, name: &str) -> Field {
    Field { callsite: 1, index, name: name.to_string() }
}

const GUID: Guid = Guid {
    data1: 0x1a1a_1a1a,
    data2: 0x2b2b,
    data3: 0x3c3c,
    data4: [0x41, 0x42, 0x43, 0x45, 0x46, 0x47, 0x48, 0x49],
};

const TEXT: &str = "1a1a1a1a-2b2b-3c3c-4142-434546474849";

#[test]
fn buffers_grow_as_buf_mut_does() {
    let mut ours = Vec::new();
    put_slice(&mut ours, b"abc");
    put_u8(&mut ours, 0xfe);
    put_u16_le(&mut ours, 0x1234);
    put_u64_le(&mut ours, 0x0102_0304_0506_0708);
    put_i64_le(&mut ours, -2);
    put_cstring(&mut ours, "h\u{e9}");
    let mut theirs: Vec<u8> = Vec::new();
    theirs.put_slice(b"abc");
    theirs.put_u8(0xfe);
    theirs.put_u16_le(0x1234);
    theirs.put_u64_le(0x0102_0304_0506_0708);
    theirs.put_i64_le(-2);
    theirs.put_slice("h\u{e9}".as_bytes());
    theirs.put_u8(0);
    assert_eq!(ours, theirs);
    assert_eq!(ours[4..6], [0x34, 0x12]);
    assert_eq!(ours[6..14], [8, 7, 6, 5, 4, 3, 2, 1]);
    assert_eq!(ours[14..22], [0xfe, 0xff, 0xff, 0xff, 0xff, 0xff, 0xff, 0xff]);
    set_u16_le(&mut ours, 0xabcd);
    assert_eq!(ours[..3], [0xcd, 0xab, b'c']);
}

#[test]
fn texts_compare_by_character() {
    assert!(same_text("", ""));
    assert!(same_text("h\u{e9}\u{1f600}", "h\u{e9}\u{1f600}"));
    assert!(!same_text("h\u{e9}", "h\u{e8}"));
    assert!(!same_text("ab", "abc"));
    assert!(!same_text("abc", "ab"));
    assert!(starts_with("log.target", "log."));
    assert!(starts_with("log.", "log."));
    assert!(starts_with("x", ""));
    assert!(!starts_with("log", "log."));
    assert!(!starts_with("l\u{f6}g.", "log."));
}

#[test]
fn level_sets() {
    let each = [
        (Level::Error, LevelSet::error()),
        (Level::Warn, LevelSet::warn()),
        (Level::Info, LevelSet::info()),
        (Level::Debug, LevelSet::debug()),
        (Level::Trace, LevelSet::trace()),
    ];
    for (i, (level, set)) in each.iter().enumerate() {
        assert!(LevelSet::from_level(*level).contains(*set));
        assert!(set.contains(LevelSet::from_level(*level)));
        assert!(LevelSet::all().contains(*set));
        assert!(!LevelSet::empty().contains(*set));
        assert!(set.contains(LevelSet::empty()));
        for (j, (_, other)) in each.iter().enumerate() {
            assert_eq!(set.contains(*other), i == j);
        }
    }
    let mut set = LevelSet::error() | LevelSet::trace();
    assert!(set.contains(LevelSet::error()));
    assert!(set.contains(LevelSet::error() | LevelSet::trace()));
    assert!(!set.contains(LevelSet::error() | LevelSet::info()));
    assert!(!set.contains(LevelSet::all()));
    set |= LevelSet::info();
    assert!(set.contains(LevelSet::error() | LevelSet::info()));
    assert!(!LevelSet::default().contains(LevelSet::debug()));
}

#[test]
fn forms_of_activity_ids() {
    for text in [
        TEXT,
        "1A1A1A1A-2B2B-3C3C-4142-434546474849",
        "1a1a1a1a2b2b3c3c4142434546474849",
        "{1a1a1a1a-2b2b-3c3c-4142-434546474849}",
        "urn:uuid:1a1a1a1a-2b2b-3c3c-4142-434546474849",
    ] {
        assert_eq!(extract_activity_id_attr(&[attribute("activity_id", text)]), Some(GUID));
    }
    let guid = win_etw_provider::GUID {
        data1: GUID.data1,
        data2: GUID.data2,
        data3: GUID.data3,
        data4: GUID.data4,
    };
    // The `Debug` form of this type has one hyphen fewer and is not read.
    let debug = format!("{:?}", guid);
    assert_eq!(extract_activity_id_attr(&[attribute("activity_id", &debug)]), None);
    let quoted = format!("{:?}", TEXT);
    assert_eq!(extract_activity_id_attr(&[attribute("activity_id", &quoted)]), None);
    assert_eq!(extract_activity_id_attr(&[attribute("activity_id", "")]), None);
}

#[test]
fn last_activity_id_attribute_counts() {
    assert!(is_activity_id_field("activity_id"));
    assert!(!is_activity_id_field("activity_ids"));
    assert_eq!(extract_activity_id_attr(&[]), None);
    assert_eq!(extract_activity_id_attr(&[attribute("other", TEXT)]), None);
    let attrs = [
        attribute("activity_id", "00000000-0000-0000-0000-000000000001"),
        attribute("activity_id", TEXT),
        attribute("other", "x"),
    ];
    assert_eq!(extract_activity_id_attr(&attrs), Some(GUID));
    let attrs = [attribute("activity_id", TEXT), attribute("activity_id", "x")];
    assert_eq!(extract_activity_id_attr(&attrs), None);
    let mut visitor = ActivityIdVisitor { value: None };
    visitor.record_debug("activity_id", TEXT);
    visitor.record_debug("id", "x");
    assert_eq!(visitor.value, Some(GUID));
}

#[test]
fn activity_id_of_the_thread() {
    let zero = Guid { data1: 0, data2: 0, data3: 0, data4: [0; 8] };
    assert_eq!(ActivityId::for_new_span(Some(GUID)).0, GUID);
    assert_eq!(ActivityId::from_query(Ok(GUID)).unwrap().0, GUID);
    let error = || win_etw_provider::Error::NotSupported;
    assert!(matches!(
        ActivityId::from_query(Err(error())),
        Err(win_etw_provider::Error::NotSupported)
    ));
    assert_eq!(ActivityId::or_default(Ok(ActivityId(GUID))).0, GUID);
    assert_eq!(ActivityId::or_default(Err(error())).0, zero);
    assert_eq!(ActivityId::default().0, zero);
    match ActivityId::from_current_thread() {
        Ok(id) => assert_eq!(ActivityId::for_new_span(None).0, id.0),
        Err(_) => assert_eq!(ActivityId::for_new_span(None).0, zero),
    }
}

#[test]
fn aliases_resolve_to_the_first() {
    let aliases = [FieldAlias::new("a", "b"), FieldAlias::new("b", "c"), FieldAlias::new("a", "d")];
    let mut data = EventData::new(&aliases, false);
    assert_eq!(data.resolve("a"), "b");
    assert_eq!(data.resolve("b"), "c");
    assert_eq!(data.resolve("c"), "c");
    assert!(data.write_name("a"));
    assert!(data.write_name("log.x"));
    assert_eq!(data.metadata, b"b\0log.x\0");
    let mut data = EventData::new(&aliases, true);
    assert!(!data.write_name("log.x"));
    assert_eq!(data.metadata, b"");
}

#[test]
fn each_kind_of_value() {
    let mut data = EventData::new(&[], false);
    data.record_i64("i", -1);
    data.record_u64("u", 258);
    data.record_bool("t", true);
    data.record_bool("f", false);
    data.record_str("s", "x\u{e9}");
    data.record_debug("d", "Some(1)");
    data.record_error("e", "top", &["mid".to_string(), "low".to_string()]);
    data.record_error("g", "alone", &[]);
    assert_eq!(
        data.metadata,
        b"i\0\x09u\0\x8a\x04t\0\x04\x03f\0\x04\x03s\0\x82\x23d\0\x82\x23e\0\x82\x23g\0\x82\x23"
    );
    assert_eq!(
        data.data,
        b"\xff\xff\xff\xff\xff\xff\xff\xff\x02\x01\0\0\0\0\0\0\x01\0x\xc3\xa9\0Some(1)\0\
          top: mid: low\0alone\0"
    );
}

#[test]
fn globals_are_rendered_in_order() {
    let blob = GlobalsBlob::from_fields(&[
        GlobalField::new("a", "1"),
        GlobalField::new("b".to_string(), "".to_string()),
    ]);
    assert_eq!(blob.metadata, b"a\0\x82\x23b\0\x82\x23");
    assert_eq!(blob.data, b"1\0\0");
    let copy = blob.clone();
    assert_eq!(copy.metadata, blob.metadata);
    assert_eq!(GlobalsBlob::from_fields(&[]).metadata, b"");
    assert_eq!(GlobalsBlob::default().data, b"");
}

#[test]
fn deferred_values_keep_the_last_value() {
    let mut values = DeferredValues::default();
    values.update(&field(0, "a"), DeferredValue::Unsigned(1));
    values.record_i64(&field(1, "b"), -1);
    values.record_bool(&field(2, "c"), true);
    values.record_str(&field(0, "a"), "now text");
    values.record_u64(&field(1, "b"), 5);
    values.record_debug(&field(3, "d"), "None");
    // The same position at another callsite is another field.
    values.record_i64(&Field { callsite: 2, index: 0, name: "a".to_string() }, 3);
    let mut data = EventData::new(&[], false);
    values.record(&mut data);
    assert_eq!(data.metadata, b"a\0\x82\x23b\0\x8a\x04c\0\x04\x03d\0\x82\x23a\0\x09");
    assert_eq!(data.data, b"now text\0\x05\0\0\0\0\0\0\0\x01None\0\x03\0\0\0\0\0\0\0");
}

#[test]
fn replaying_into_an_empty_store_copies_it() {
    let mut values = DeferredValues::default();
    values.record_u64(&field(0, "a"), 7);
    values.record_debug(&field(1, "b"), "x");
    values.record_bool(&field(2, "c"), true);
    values.record_i64(&field(0, "a"), -1);
    let mut copy = DeferredValues::default();
    copy.store(&values.replay());
    for store in [&values, &copy] {
        let calls = store.replay();
        assert_eq!(calls.len(), 3);
        assert_eq!((calls[0].field.index, calls[0].field.name.as_str()), (0, "a"));
        assert!(matches!(calls[0].value, FieldValue::Signed(-1)));
        assert_eq!((calls[1].field.index, calls[1].field.name.as_str()), (1, "b"));
        assert!(matches!(&calls[1].value, FieldValue::Str(s) if s == "x"));
        assert_eq!((calls[2].field.index, calls[2].field.name.as_str()), (2, "c"));
        assert!(matches!(calls[2].value, FieldValue::Boolean(true)));
        let mut stored = EventData::new(&[], false);
        store.record(&mut stored);
        let mut replayed = EventData::new(&[], false);
        for call in &calls {
            replayed.record(call);
        }
        assert_eq!(stored.metadata, b"a\0\x09b\0\x82\x23c\0\x04\x03");
        assert_eq!(stored.metadata, replayed.metadata);
        assert_eq!(stored.data, replayed.data);
    }
}

#[test]
fn deferred_errors_keep_their_message() {
    let error = FieldValue::Error { message: "top".to_string(), sources: vec!["low".to_string()] };
    let mut values = DeferredValues::default();
    values.store(&[
        Recorded { field: field(0, "e"), value: error },
        Recorded { field: field(1, "n"), value: FieldValue::Signed(1) },
        Recorded { field: field(1, "n"), value: FieldValue::Boolean(true) },
    ]);
    let mut data = EventData::new(&[], false);
    values.record(&mut data);
    assert_eq!(data.metadata, b"e\0\x82\x23n\0\x04\x03");
    assert_eq!(data.data, b"top\0\x01");
}
