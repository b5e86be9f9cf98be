//! What each call that changes or reads the settings does.

use crate::event_writer::{resolve_name, with_alias, FieldAlias, GlobalField};
use crate::keyword::{law_keyword_bits, rules_keyword, KeywordRule, Level, LevelSet};
use crate::laws::layout::{are_fields, is_named, lemma_are_globals, lemma_is_named, told_globals};
use crate::subscriber::{EventDescriptor, Settings, TracelogSubscriber};
use crate::wire::{law_u16_le, u16_le};
use vstd::prelude::*;
use vstd::string::*;
use vstd::utf8::*;

verus! {

/// One of the given bits is set.
pub open spec fn has_one_of(keyword: u64, bits: u64) -> bool {
    keyword & bits != 0
}

/// Of any group of bits, `keyword` has one set exactly if some rule for the level
/// has one set that the mask lets through.
pub open spec fn is_keyword(
    rules: Seq<KeywordRule>,
    mask: u64,
    level: Level,
    keyword: u64,
) -> bool {
    forall|bits: u64| #[trigger]
        has_one_of(keyword, bits) <==> exists|i: int|
            0 <= i < rules.len() && (#[trigger] rules[i]).levels@.contains(level)
                && rules[i].keyword & mask & bits != 0
}

/// The header of an event. Each level has its ETW level, the last two share one.
pub open spec fn is_header(
    settings: Settings,
    opcode: u8,
    level: Level,
    header: EventDescriptor,
) -> bool {
    &&& header.id == 0
    &&& header.version == 0
    &&& header.channel == 11
    &&& header.task == 0
    &&& header.opcode == opcode
    &&& level == Level::Error ==> header.level == 2
    &&& level == Level::Warn ==> header.level == 3
    &&& level == Level::Info ==> header.level == 4
    &&& level == Level::Debug ==> header.level == 5
    &&& level == Level::Trace ==> header.level == 5
    &&& is_keyword(settings.keyword_rules, settings.keyword_mask, level, header.keyword)
}

/// The keyword of the settings is one such as [`is_keyword`] speaks of.
pub proof fn lemma_is_keyword(settings: Settings, level: Level)
    ensures
        is_keyword(
            settings.keyword_rules,
            settings.keyword_mask,
            level,
            settings.keyword(level),
        ),
{
    let rules = settings.keyword_rules;
    let mask = settings.keyword_mask;
    let given = rules_keyword(rules, level);
    let keyword = settings.keyword(level);
    assert forall|bits: u64| #[trigger]
        has_one_of(keyword, bits) <==> exists|i: int|
            0 <= i < rules.len() && (#[trigger] rules[i]).levels@.contains(level)
                && rules[i].keyword & mask & bits != 0 by {
        let through = mask & bits;
        assert((given & mask) & bits == given & (mask & bits)) by (bit_vector);
        law_keyword_bits(rules, level, through);
        assert forall|i: int| 0 <= i < rules.len() implies (#[trigger] rules[i]).keyword & mask
            & bits == rules[i].keyword & through by {
            let k = rules[i].keyword;
            assert((k & mask) & bits == k & (mask & bits)) by (bit_vector);
        }
        if given & through != 0 {
            let i = choose|i: int|
                0 <= i < rules.len() && #[trigger] rules[i].levels@.contains(level)
                    && rules[i].keyword & through != 0;
            assert(rules[i].keyword & mask & bits != 0);
        }
        if exists|i: int|
            0 <= i < rules.len() && (#[trigger] rules[i]).levels@.contains(level)
                && rules[i].keyword & mask & bits != 0 {
            let i = choose|i: int|
                0 <= i < rules.len() && (#[trigger] rules[i]).levels@.contains(level)
                    && rules[i].keyword & mask & bits != 0;
            assert(rules[i].levels@.contains(level) && rules[i].keyword & through != 0);
        }
    }
}

/// The header of the settings is one such as [`is_header`] speaks of.
pub proof fn lemma_is_header(settings: Settings, opcode: u8, level: Level)
    ensures
        is_header(settings, opcode, level, settings.descriptor(opcode, level)),
{
    lemma_is_keyword(settings, level);
}

/// The keyword of a level is that of the rules for it, as far as the mask lets
/// them through.
pub proof fn law_resolve_keyword(t: &TracelogSubscriber, level: Level, k: u64)
    requires
        call_ensures(TracelogSubscriber::resolve_keyword, (t, level), k),
    ensures
        is_keyword(t@.keyword_rules, t@.keyword_mask, level, k),
{
    lemma_is_keyword(t@, level);
}

/// Every header has the level and the keyword of its event's level.
pub proof fn law_event_descriptor(
    t: &TracelogSubscriber,
    opcode: u8,
    level: Level,
    r: EventDescriptor,
)
    requires
        call_ensures(TracelogSubscriber::event_descriptor, (t, opcode, level), r),
    ensures
        is_header(t@, opcode, level, r),
{
    lemma_is_header(t@, opcode, level);
}

/// Whatever their opcodes, two headers of one level have one keyword, and it is
/// the one that the level resolves to.
pub proof fn law_opcode_leaves_keyword(
    t: &TracelogSubscriber,
    opcode: u8,
    other: u8,
    level: Level,
    one: EventDescriptor,
    two: EventDescriptor,
    k: u64,
)
    requires
        call_ensures(TracelogSubscriber::event_descriptor, (t, opcode, level), one),
        call_ensures(TracelogSubscriber::event_descriptor, (t, other, level), two),
        call_ensures(TracelogSubscriber::resolve_keyword, (t, level), k),
    ensures
        one.keyword == k,
        two.keyword == k,
        one.level == two.level,
{
}

/// One more rule adds its bits at its levels, as far as the mask lets them
/// through, and changes nothing at other levels.
pub proof fn law_add_keyword(
    t: &mut TracelogSubscriber,
    rule: KeywordRule,
    level: Level,
    before: u64,
    after: u64,
)
    requires
        call_ensures(TracelogSubscriber::add_keyword, (t, rule), ()),
        call_ensures(TracelogSubscriber::resolve_keyword, (&*old(t), level), before),
        call_ensures(TracelogSubscriber::resolve_keyword, (&*final(t), level), after),
    ensures
        rule.levels@.contains(level) ==> after == before | (rule.keyword & old(t)@.keyword_mask),
        !rule.levels@.contains(level) ==> after == before,
        final(t)@ == (Settings { keyword_rules: final(t)@.keyword_rules, ..old(t)@ }),
{
    let rules = old(t)@.keyword_rules;
    crate::keyword::law_rules_accumulate(rules, rule, level);
    let r = rules_keyword(rules, level);
    let m = old(t)@.keyword_mask;
    let k = rule.keyword;
    assert((r | k) & m == (r & m) | (k & m)) by (bit_vector);
}

/// Opting out of telemetry takes three bits out of every keyword and no others;
/// opting in puts back whatever the rules give.
pub proof fn law_enable_telemetry_events(
    t: &mut TracelogSubscriber,
    enabled: bool,
    level: Level,
    k: u64,
)
    requires
        call_ensures(TracelogSubscriber::enable_telemetry_events, (t, enabled), ()),
        call_ensures(TracelogSubscriber::resolve_keyword, (&*final(t), level), k),
    ensures
        is_keyword(
            old(t)@.keyword_rules,
            if enabled {
                0xffff_ffff_ffff_ffff
            } else {
                0xffff_1fff_ffff_ffff
            },
            level,
            k,
        ),
        final(t)@ == (Settings { keyword_mask: final(t)@.keyword_mask, ..old(t)@ }),
{
    assert(!0x0000_e000_0000_0000u64 == 0xffff_1fff_ffff_ffffu64) by (bit_vector);
    lemma_is_keyword(final(t)@, level);
}

/// A new subscriber has no rules, no global fields and no aliases, lets every
/// keyword bit through, and has as provider metadata its length, the name and a
/// NUL.
pub proof fn law_new(name: &str, tracing_log: bool, r: TracelogSubscriber)
    requires
        encode_utf8(name@).len() + 3 <= u16::MAX,
        call_ensures(TracelogSubscriber::new, (name, tracing_log), r),
    ensures
        r@.provider_metadata.len() == encode_utf8(name@).len() + 3,
        r@.provider_metadata[0] + 256 * r@.provider_metadata[1] == r@.provider_metadata.len(),
        r@.provider_metadata.skip(2) == encode_utf8(name@) + seq![0u8],
        r@.keyword_mask == 0xffff_ffff_ffff_ffff,
        r@.keyword_rules.len() == 0,
        r@.globals.metadata.len() == 0,
        r@.globals.data.len() == 0,
        r@.aliases.len() == 0,
        r@.tracing_log == tracing_log,
{
    let len = (encode_utf8(name@).len() + 3) as u16;
    law_u16_le(len);
    assert(r@.provider_metadata[0] == u16_le(len)[0]);
    assert(r@.provider_metadata[1] == u16_le(len)[1]);
    assert(r@.provider_metadata.skip(2) =~= encode_utf8(name@) + seq![0u8]);
}

/// The global fields that are set are those that are kept, as texts under their
/// own names, in place of all that were set before.
pub proof fn law_set_global_fields(t: &mut TracelogSubscriber, fields: &[GlobalField])
    requires
        call_ensures(TracelogSubscriber::set_global_fields, (t, fields), ()),
    ensures
        are_fields(
            Seq::empty(),
            false,
            told_globals(fields@),
            final(t)@.globals.metadata,
            final(t)@.globals.data,
        ),
        final(t)@ == (Settings { globals: final(t)@.globals, ..old(t)@ }),
{
    lemma_are_globals(fields@);
}

/// An alias that is set gives its field the new name, whatever name the field
/// had before, and leaves the name of every other field as it was.
pub proof fn law_set_field_alias(t: &mut TracelogSubscriber, alias: FieldAlias, name: Seq<char>)
    requires
        call_ensures(TracelogSubscriber::set_field_alias, (t, alias), ()),
    ensures
        is_named(final(t)@.aliases, alias.from@, alias.to@),
        name != alias.from@ ==> forall|out: Seq<char>| #[trigger]
            is_named(final(t)@.aliases, name, out) <==> is_named(old(t)@.aliases, name, out),
        forall|i: int, j: int|
            0 <= i < j < final(t)@.aliases.len() ==> (#[trigger] final(t)@.aliases[i]).from@ != (
            #[trigger] final(t)@.aliases[j]).from@,
        final(t)@ == (Settings { aliases: final(t)@.aliases, ..old(t)@ }),
{
    let before = old(t)@.aliases;
    let after = with_alias(before, alias);
    crate::event_writer::law_set_alias(before, alias, alias.from@);
    crate::event_writer::law_set_alias(before, alias, name);
    lemma_is_named(after, alias.from@);
    lemma_is_named(after, name);
    lemma_is_named(before, name);
    assert(resolve_name(after, alias.from@) == alias.to@);
}

/// The set of one level holds that level and no other, the set of all levels
/// every one, the empty set none.
pub proof fn law_level_sets(
    level: Level,
    other: Level,
    one: LevelSet,
    all: LevelSet,
    none: LevelSet,
)
    requires
        call_ensures(LevelSet::from_level, (level,), one),
        call_ensures(LevelSet::all, (), all),
        call_ensures(LevelSet::empty, (), none),
    ensures
        one@.contains(other) <==> other == level,
        all@.contains(other),
        !none@.contains(other),
{
}

/// The sets with a level's name hold that level and no other.
pub proof fn law_named_level_sets(
    error: LevelSet,
    warn: LevelSet,
    info: LevelSet,
    debug: LevelSet,
    trace: LevelSet,
    level: Level,
)
    requires
        call_ensures(LevelSet::error, (), error),
        call_ensures(LevelSet::warn, (), warn),
        call_ensures(LevelSet::info, (), info),
        call_ensures(LevelSet::debug, (), debug),
        call_ensures(LevelSet::trace, (), trace),
    ensures
        error@.contains(level) <==> level == Level::Error,
        warn@.contains(level) <==> level == Level::Warn,
        info@.contains(level) <==> level == Level::Info,
        debug@.contains(level) <==> level == Level::Debug,
        trace@.contains(level) <==> level == Level::Trace,
{
}

/// A set contains another exactly if it holds each of its levels.
pub proof fn law_contains(set: LevelSet, other: LevelSet, r: bool)
    requires
        call_ensures(LevelSet::contains, (set, other), r),
    ensures
        r <==> forall|level: Level| #[trigger] other@.contains(level) ==> set@.contains(level),
{
}

/// A union holds a level exactly if one of the two sets does.
pub proof fn law_union(a: LevelSet, b: LevelSet, r: LevelSet, level: Level)
    requires
        call_ensures(<LevelSet as std::ops::BitOr>::bitor, (a, b), r),
    ensures
        r@.contains(level) <==> a@.contains(level) || b@.contains(level),
{
}

/// An alias and a global field hold the texts that they are made of, each in its
/// place.
pub proof fn law_made_of_texts<'a>(
    first: &'a str,
    second: &'a str,
    alias: FieldAlias,
    global: GlobalField,
)
    requires
        call_ensures(FieldAlias::new::<&'a str, &'a str>, (first, second), alias),
        call_ensures(GlobalField::new::<&'a str, &'a str>, (first, second), global),
    ensures
        alias.from@ == first@,
        alias.to@ == second@,
        global.name@ == first@,
        global.value@ == second@,
{
}

/// What is registered with ETW is the provider metadata that a new subscriber
/// was given, and the bridge is on if it was asked for.
pub proof fn law_read_settings(t: &TracelogSubscriber, bytes: &[u8], tracing_log: bool)
    requires
        call_ensures(TracelogSubscriber::provider_metadata, (t,), bytes),
        call_ensures(TracelogSubscriber::tracing_log, (t,), tracing_log),
    ensures
        bytes@ == t@.provider_metadata,
        tracing_log == t@.tracing_log,
{
}

} // verus!
