//! Keyword vocabulary: which trace levels contribute which keyword bits.

use vstd::prelude::*;

verus! {

/// The level of a traced span or event.
#[derive(Debug, Clone, Copy, PartialEq, Eq, Structural)]
pub enum Level {
    Error,
    Warn,
    Info,
    Debug,
    Trace,
}

impl Level {
    /// The bit that stands for this level in a [`LevelSet`].
    pub open spec fn bit(self) -> u8 {
        match self {
            Level::Error => 1,
            Level::Warn => 2,
            Level::Info => 4,
            Level::Debug => 8,
            Level::Trace => 16,
        }
    }
}

/// Set of trace levels at which a [`KeywordRule`] applies. Combine sets with
/// `|`.
#[derive(Debug, Clone, Copy)]
pub struct LevelSet(u8);

impl View for LevelSet {
    type V = Set<Level>;

    closed spec fn view(&self) -> Set<Level> {
        Set::new(|level: Level| self.0 & level.bit() != 0)
    }
}

/// Every level.
pub open spec fn all_levels() -> Set<Level> {
    Set::new(|level: Level| true)
}

/// `b`'s bits lie within `a`'s exactly if each of the five level bits of `b` is
/// one of `a`'s.
proof fn lemma_subset_bits(a: u8, b: u8)
    by (bit_vector)
    requires
        a < 32,
        b < 32,
    ensures
        (a & b) == b <==> {
            &&& b & 1u8 != 0 ==> a & 1u8 != 0
            &&& b & 2u8 != 0 ==> a & 2u8 != 0
            &&& b & 4u8 != 0 ==> a & 4u8 != 0
            &&& b & 8u8 != 0 ==> a & 8u8 != 0
            &&& b & 16u8 != 0 ==> a & 16u8 != 0
        },
{
}

/// The level bits of a union.
proof fn lemma_union_bits(a: u8, b: u8, bit: u8)
    by (bit_vector)
    requires
        a < 32,
        b < 32,
    ensures
        (a | b) < 32,
        (a | b) & bit != 0 <==> (a & bit != 0 || b & bit != 0),
{
}

/// What the six sets with a name hold.
proof fn lemma_named_bits()
    by (bit_vector)
    ensures
        forall|bit: u8| #[trigger] (0u8 & bit) == 0,
        1u8 & 1u8 != 0,
        1u8 & 2u8 == 0,
        1u8 & 4u8 == 0,
        1u8 & 8u8 == 0,
        1u8 & 16u8 == 0,
        2u8 & 1u8 == 0,
        2u8 & 2u8 != 0,
        2u8 & 4u8 == 0,
        2u8 & 8u8 == 0,
        2u8 & 16u8 == 0,
        4u8 & 1u8 == 0,
        4u8 & 2u8 == 0,
        4u8 & 4u8 != 0,
        4u8 & 8u8 == 0,
        4u8 & 16u8 == 0,
        8u8 & 1u8 == 0,
        8u8 & 2u8 == 0,
        8u8 & 4u8 == 0,
        8u8 & 8u8 != 0,
        8u8 & 16u8 == 0,
        16u8 & 1u8 == 0,
        16u8 & 2u8 == 0,
        16u8 & 4u8 == 0,
        16u8 & 8u8 == 0,
        16u8 & 16u8 != 0,
        31u8 & 1u8 != 0,
        31u8 & 2u8 != 0,
        31u8 & 4u8 != 0,
        31u8 & 8u8 != 0,
        31u8 & 16u8 != 0,
{
}

impl LevelSet {
    /// Only the five level bits are ever set.
    #[verifier::type_invariant]
    spec fn inv(self) -> bool {
        self.0 < 32
    }

    /// The set of the level `Error` alone.
    pub fn error() -> (r: LevelSet)
        ensures
            r@ == set![Level::Error],
    {
        proof {
            lemma_named_bits();
        }
        LevelSet(1)
    }

    /// The set of the level `Warn` alone.
    pub fn warn() -> (r: LevelSet)
        ensures
            r@ == set![Level::Warn],
    {
        proof {
            lemma_named_bits();
        }
        LevelSet(2)
    }

    /// The set of the level `Info` alone.
    pub fn info() -> (r: LevelSet)
        ensures
            r@ == set![Level::Info],
    {
        proof {
            lemma_named_bits();
        }
        LevelSet(4)
    }

    /// The set of the level `Debug` alone.
    pub fn debug() -> (r: LevelSet)
        ensures
            r@ == set![Level::Debug],
    {
        proof {
            lemma_named_bits();
        }
        LevelSet(8)
    }

    /// The set of the level `Trace` alone.
    pub fn trace() -> (r: LevelSet)
        ensures
            r@ == set![Level::Trace],
    {
        proof {
            lemma_named_bits();
        }
        LevelSet(16)
    }

    /// The set of every level.
    pub fn all() -> (r: LevelSet)
        ensures
            r@ == all_levels(),
    {
        proof {
            lemma_named_bits();
        }
        LevelSet(31)
    }

    /// The set of no level.
    pub fn empty() -> (r: LevelSet)
        ensures
            r@ == Set::<Level>::empty(),
    {
        proof {
            lemma_named_bits();
        }
        LevelSet(0)
    }

    /// Whether every level of `other` is in `self`.
    pub fn contains(self, other: LevelSet) -> (r: bool)
        ensures
            r == other@.subset_of(self@),
    {
        proof {
            use_type_invariant(self);
            use_type_invariant(other);
            lemma_subset_bits(self.0, other.0);
            if self.0 & other.0 != other.0 {
                assert(!other@.subset_of(self@)) by {
                    assert(other@.contains(Level::Error) <==> other.0 & 1u8 != 0);
                    assert(other@.contains(Level::Warn) <==> other.0 & 2u8 != 0);
                    assert(other@.contains(Level::Info) <==> other.0 & 4u8 != 0);
                    assert(other@.contains(Level::Debug) <==> other.0 & 8u8 != 0);
                    assert(other@.contains(Level::Trace) <==> other.0 & 16u8 != 0);
                }
            }
        }
        (self.0 & other.0) == other.0
    }

    /// The set of the given level alone.
    pub fn from_level(level: Level) -> (r: LevelSet)
        ensures
            r@ == set![level],
    {
        match level {
            Level::Error => LevelSet::error(),
            Level::Warn => LevelSet::warn(),
            Level::Info => LevelSet::info(),
            Level::Debug => LevelSet::debug(),
            Level::Trace => LevelSet::trace(),
        }
    }
}

impl Default for LevelSet {
    fn default() -> (r: LevelSet)
        ensures
            r@ == Set::<Level>::empty(),
    {
        LevelSet::empty()
    }
}

impl std::ops::BitOr for LevelSet {
    type Output = LevelSet;

    fn bitor(self, rhs: LevelSet) -> (r: LevelSet)
        ensures
            r@ == self@.union(rhs@),
    {
        proof {
            use_type_invariant(self);
            use_type_invariant(rhs);
            lemma_union_bits(self.0, rhs.0, 0);
            assert forall|level: Level| (self.0 | rhs.0) & level.bit() != 0 <==> (self.0
                & level.bit() != 0 || rhs.0 & level.bit() != 0) by {
                lemma_union_bits(self.0, rhs.0, level.bit());
            }
        }
        LevelSet(self.0 | rhs.0)
    }
}

impl vstd::std_specs::ops::BitOrSpecImpl for LevelSet {
    open spec fn obeys_bitor_spec() -> bool {
        true
    }

    open spec fn bitor_req(self, rhs: LevelSet) -> bool {
        true
    }

    closed spec fn bitor_spec(self, rhs: LevelSet) -> LevelSet {
        LevelSet(self.0 | rhs.0)
    }
}

impl std::ops::BitOrAssign for LevelSet {
    fn bitor_assign(&mut self, rhs: LevelSet)
        ensures
            final(self)@ == old(self)@.union(rhs@),
    {
        *self = *self | rhs;
    }
}

/// A keyword OR'd into the ETW event keyword whenever the event's level is
/// in [`KeywordRule::levels`]. Multiple rules accumulate.
///
/// An always-on classification has `levels: LevelSet::all()`. ETW collapses
/// `Debug` and `Trace` to one verbose level; a rule with
/// `levels: LevelSet::trace()` keeps them distinguishable.
#[derive(Debug, Clone, Copy)]
pub struct KeywordRule {
    pub keyword: u64,
    pub levels: LevelSet,
}

impl KeywordRule {
    /// The bits that this rule gives to an event of the given level.
    pub open spec fn contribution(self, level: Level) -> u64 {
        if self.levels@.contains(level) {
            self.keyword
        } else {
            0
        }
    }
}

/// The keyword that the rules together give to an event of the given level.
pub open spec fn rules_keyword(rules: Seq<KeywordRule>, level: Level) -> u64
    decreases rules.len(),
{
    if rules.len() == 0 {
        0
    } else {
        rules_keyword(rules.drop_last(), level) | rules.last().contribution(level)
    }
}

/// Rules accumulate: adding a rule adds its keyword at the levels of its set
/// and changes nothing at the others.
pub proof fn law_rules_accumulate(rules: Seq<KeywordRule>, rule: KeywordRule, level: Level)
    ensures
        rule.levels@.contains(level) ==> rules_keyword(rules.push(rule), level) == rules_keyword(
            rules,
            level,
        ) | rule.keyword,
        !rule.levels@.contains(level) ==> rules_keyword(rules.push(rule), level) == rules_keyword(
            rules,
            level,
        ),
{
    assert(rules.push(rule).drop_last() =~= rules);
    let k = rules_keyword(rules, level);
    assert(k | 0u64 == k) by (bit_vector);
}

/// Of any group of bits, the keyword of an event has one set exactly if some
/// rule whose levels include the event's has one set. So neither the order of
/// the rules nor a repeated rule makes a difference.
pub proof fn law_keyword_bits(rules: Seq<KeywordRule>, level: Level, bits: u64)
    ensures
        rules_keyword(rules, level) & bits != 0 <==> exists|i: int|
            0 <= i < rules.len() && #[trigger] rules[i].levels@.contains(level) && rules[i].keyword
                & bits != 0,
    decreases rules.len(),
{
    if rules.len() == 0 {
        assert(0u64 & bits == 0) by (bit_vector);
    } else {
        let rest = rules.drop_last();
        let k = rules_keyword(rest, level);
        let c = rules.last().contribution(level);
        law_keyword_bits(rest, level, bits);
        assert((k | c) & bits != 0 <==> (k & bits != 0 || c & bits != 0)) by (bit_vector);
        assert(0u64 & bits == 0) by (bit_vector);
        if k & bits != 0 {
            let i = choose|i: int|
                0 <= i < rest.len() && #[trigger] rest[i].levels@.contains(level)
                    && rest[i].keyword & bits != 0;
            assert(rules[i].levels@.contains(level) && rules[i].keyword & bits != 0);
        }
        if exists|i: int|
            0 <= i < rules.len() && #[trigger] rules[i].levels@.contains(level) && rules[i].keyword
                & bits != 0 {
            let i = choose|i: int|
                0 <= i < rules.len() && #[trigger] rules[i].levels@.contains(level)
                    && rules[i].keyword & bits != 0;
            if i < rest.len() {
                assert(rest[i].levels@.contains(level) && rest[i].keyword & bits != 0);
            }
        }
    }
}

} // verus!
