//! ETW activity ID handling: extraction from span attributes and fallback to
//! the current thread's ETW activity ID.

use crate::text::same_text;
use vstd::prelude::*;
use vstd::string::*;

verus! {

/// A GUID.
#[derive(Debug, Clone, Copy, PartialEq, Eq)]
pub struct Guid {
    pub data1: u32,
    pub data2: u16,
    pub data3: u16,
    pub data4: [u8; 8],
}

/// The last `digits` hexadecimal digits of `n`, in lower case.
pub open spec fn hex(n: int, digits: nat) -> Seq<char>
    decreases digits,
{
    if digits == 0 {
        Seq::empty()
    } else {
        hex(n / 16, (digits - 1) as nat).push("0123456789abcdef"@[n % 16])
    }
}

impl Guid {
    /// The GUID of sixteen zero bytes.
    pub open spec fn zero() -> Guid {
        Guid { data1: 0, data2: 0, data3: 0, data4: [0u8, 0, 0, 0, 0, 0, 0, 0] }
    }

    /// The GUID in five groups of hexadecimal digits with hyphens between them,
    /// of 8, 4, 4, 4 and 12 digits.
    pub open spec fn hyphenated(self) -> Seq<char> {
        hex(self.data1 as int, 8) + "-"@ + hex(self.data2 as int, 4) + "-"@ + hex(
            self.data3 as int,
            4,
        ) + "-"@ + hex(self.data4@[0] as int, 2) + hex(self.data4@[1] as int, 2) + "-"@ + hex(
            self.data4@[2] as int,
            2,
        ) + hex(self.data4@[3] as int, 2) + hex(self.data4@[4] as int, 2) + hex(
            self.data4@[5] as int,
            2,
        ) + hex(self.data4@[6] as int, 2) + hex(self.data4@[7] as int, 2)
    }
}

impl Default for Guid {
    fn default() -> (r: Guid)
        ensures
            r == Guid::zero(),
    {
        Guid { data1: 0, data2: 0, data3: 0, data4: [0u8, 0, 0, 0, 0, 0, 0, 0] }
    }
}

/// What `win_etw_provider` reads a text as: a GUID, or nothing.
pub uninterp spec fn guid_of_text(text: Seq<char>) -> Option<Guid>;

/// `win_etw_provider::GUID::try_from` on a text, which parses it as a UUID. The
/// result depends on the text alone. The hyphenated form of a GUID is read as
/// that GUID; of the other forms that are read, and of the texts that are
/// refused, nothing is said.
#[verifier::external_body]
fn parse_guid(text: &str) -> (r: Option<Guid>)
    ensures
        r == guid_of_text(text@),
        forall|guid: Guid| text@ == #[trigger] guid.hyphenated() ==> r == Some(guid),
{
    match win_etw_provider::GUID::try_from(text) {
        Ok(g) => Some(Guid { data1: g.data1, data2: g.data2, data3: g.data3, data4: g.data4 }),
        Err(_) => None,
    }
}

/// The error of `win_etw_provider`.
#[verifier::external_type_specification]
#[verifier::external_body]
pub struct ExError(win_etw_provider::Error);

/// `win_etw_provider::get_current_thread_activity_id`: the activity ID that the
/// operating system keeps for the calling thread. What it returns depends on
/// the thread and on the system, so nothing is said of it.
#[verifier::external_body]
pub(crate) fn query_current_thread() -> (r: Result<Guid, win_etw_provider::Error>)
{
    match win_etw_provider::get_current_thread_activity_id() {
        Ok(g) => Ok(Guid { data1: g.data1, data2: g.data2, data3: g.data3, data4: g.data4 }),
        Err(e) => Err(e),
    }
}

/// A query of the calling thread's activity ID can give this answer.
pub closed spec fn thread_may_answer(queried: Result<Guid, win_etw_provider::Error>) -> bool {
    call_ensures(query_current_thread, (), queried)
}

/// What [`thread_may_answer`] means.
pub(crate) proof fn lemma_thread_may_answer()
    ensures
        forall|queried: Result<Guid, win_etw_provider::Error>| #[trigger]
            thread_may_answer(queried) ==> call_ensures(query_current_thread, (), queried),
{
}

/// An ETW activity ID. Kept with each span so that descendant spans and events
/// can pick it up as their related activity ID.
#[derive(Debug, Clone, Copy)]
pub struct ActivityId(pub Guid);

impl Default for ActivityId {
    fn default() -> (r: ActivityId)
        ensures
            r.0 == Guid::zero(),
    {
        ActivityId(Guid::default())
    }
}

impl ActivityId {
    /// The activity ID of the calling thread. A GUID that the query of the thread
    /// gave is held as it is, and an error of the query is handed on. Which of the
    /// two it gives, and which GUID, depends on the thread and on the system;
    /// [`ActivityId::from_query`] says what becomes of each answer.
    pub fn from_current_thread() -> (r: Result<ActivityId, win_etw_provider::Error>)
        ensures
            r matches Ok(id) ==> thread_may_answer(Ok(id.0)),
            r matches Err(e) ==> thread_may_answer(Err(e)),
    {
        ActivityId::from_query(query_current_thread())
    }

    /// The activity ID that a query of the thread's GUID gave.
    pub fn from_query(queried: Result<Guid, win_etw_provider::Error>) -> (r: Result<
        ActivityId,
        win_etw_provider::Error,
    >)
        ensures
            r == (match queried {
                Ok(guid) => Ok(ActivityId(guid)),
                Err(e) => Err(e),
            }),
    {
        match queried {
            Ok(guid) => Ok(ActivityId(guid)),
            Err(e) => Err(e),
        }
    }

    /// The given activity ID, or the default one in place of an error.
    pub fn or_default(found: Result<ActivityId, win_etw_provider::Error>) -> (r: ActivityId)
        ensures
            r == (match found {
                Ok(id) => id,
                Err(_) => ActivityId(Guid::zero()),
            }),
    {
        match found {
            Ok(id) => id,
            Err(_) => ActivityId::default(),
        }
    }

    /// The activity ID of a new span: the one that its attributes supply, else
    /// that of the calling thread, else the default one. The thread is asked only
    /// if there is none supplied; [`ActivityId::or_default`] says what becomes of
    /// its answer.
    pub fn for_new_span(supplied: Option<Guid>) -> (r: ActivityId)
        ensures
            supplied matches Some(guid) ==> r == ActivityId(guid),
            supplied is None ==> thread_may_answer(Ok(r.0)) || (r.0 == Guid::zero()
                && exists|e: win_etw_provider::Error| #[trigger] thread_may_answer(Err(e))),
    {
        match supplied {
            Some(guid) => ActivityId(guid),
            None => ActivityId::or_default(ActivityId::from_current_thread()),
        }
    }

    /// The activity ID of a new span with the given attributes: the one that they
    /// supply, else that of the calling thread, else the default one.
    pub fn of_attributes(attrs: &[Attribute]) -> (r: ActivityId)
        ensures
            supplied_guid(attrs@) matches Some(guid) ==> r == ActivityId(guid),
            forall|guid: Guid|
                #![trigger supplies(attrs@, guid)]
                supplies(attrs@, guid) ==> r == ActivityId(guid),
            supplied_guid(attrs@) is None ==> thread_may_answer(Ok(r.0)) || (r.0 == Guid::zero()
                && exists|e: win_etw_provider::Error| #[trigger] thread_may_answer(Err(e))),
    {
        ActivityId::for_new_span(extract_activity_id_attr(attrs))
    }
}

/// Whether a field supplies an activity ID.
pub fn is_activity_id_field(name: &str) -> (r: bool)
    ensures
        r == (name@ == "activity_id"@),
{
    same_text(name, "activity_id")
}

/// Pulls an `activity_id` field out of span attributes, parsing its `Debug`
/// representation as a GUID.
pub struct ActivityIdVisitor {
    pub value: Option<Guid>,
}

impl ActivityIdVisitor {
    /// Takes note of one field.
    pub fn record_debug(&mut self, name: &str, rendered: &str)
        ensures
            name@ == "activity_id"@ ==> final(self).value == guid_of_text(rendered@),
            name@ == "activity_id"@ ==> forall|guid: Guid|
                rendered@ == #[trigger] guid.hyphenated() ==> final(self).value == Some(guid),
            name@ != "activity_id"@ ==> final(self).value == old(self).value,
    {
        if is_activity_id_field(name) {
            self.value = parse_guid(rendered);
        }
    }
}

/// A span attribute with the `Debug` representation of its value.
#[derive(Debug)]
pub struct Attribute {
    pub name: String,
    pub rendered: String,
}

/// The GUID that the last attribute named `activity_id` is read as.
pub open spec fn supplied_guid(attrs: Seq<Attribute>) -> Option<Guid>
    decreases attrs.len(),
{
    if attrs.len() == 0 {
        None
    } else if attrs.last().name@ == "activity_id"@ {
        guid_of_text(attrs.last().rendered@)
    } else {
        supplied_guid(attrs.drop_last())
    }
}

/// The last attribute named `activity_id` holds the hyphenated form of `guid`.
pub open spec fn supplies(attrs: Seq<Attribute>, guid: Guid) -> bool {
    exists|k: int|
        0 <= k < attrs.len() && (#[trigger] attrs[k]).name@ == "activity_id"@
            && attrs[k].rendered@ == guid.hyphenated() && forall|j: int|
            k < j < attrs.len() ==> (#[trigger] attrs[j]).name@ != "activity_id"@
}

/// Returns the GUID supplied via an `activity_id = ...` field on a span, if
/// present and parseable. The last such field counts.
pub fn extract_activity_id_attr(attrs: &[Attribute]) -> (r: Option<Guid>)
    ensures
        r == supplied_guid(attrs@),
        forall|guid: Guid|
            #![trigger supplies(attrs@, guid)]
            supplies(attrs@, guid) ==> r == Some(guid),
{
    let mut visitor: ActivityIdVisitor = ActivityIdVisitor { value: None };
    let mut i: usize = 0;
    while i < attrs.len()
        invariant
            i <= attrs@.len(),
            visitor.value == supplied_guid(attrs@.take(i as int)),
            forall|guid: Guid| #[trigger]
                supplies(attrs@.take(i as int), guid) ==> visitor.value == Some(guid),
        decreases attrs@.len() - i,
    {
        visitor.record_debug(attrs[i].name.as_str(), attrs[i].rendered.as_str());
        i += 1;
        proof {
            let seen = attrs@.take(i as int);
            assert(seen.drop_last() =~= attrs@.take(i - 1));
            assert forall|guid: Guid| #[trigger] supplies(seen, guid) implies visitor.value
                == Some(guid) by {
                let k = choose|k: int|
                    0 <= k < seen.len() && (#[trigger] seen[k]).name@ == "activity_id"@
                        && seen[k].rendered@ == guid.hyphenated() && forall|j: int|
                        k < j < seen.len() ==> (#[trigger] seen[j]).name@ != "activity_id"@;
                if k < i - 1 {
                    assert(seen[i - 1].name@ != "activity_id"@);
                    assert(attrs@.take(i - 1)[k] == seen[k]);
                    assert forall|j: int| k < j < i - 1 implies (#[trigger] attrs@.take(
                        i - 1,
                    )[j]).name@ != "activity_id"@ by {
                        assert(attrs@.take(i - 1)[j] == seen[j]);
                    }
                    assert(supplies(attrs@.take(i - 1), guid));
                }
            }
        }
    }
    assert(attrs@.take(i as int) =~= attrs@);
    visitor.value
}

} // verus!
