//! Which activity ID a span has, call by call.

use crate::activity_id::{
    extract_activity_id_attr, guid_of_text, hex, query_current_thread, supplied_guid, ActivityId,
    ActivityIdVisitor, Attribute, Guid,
};
use vstd::arithmetic::power::pow;
use vstd::prelude::*;
use vstd::string::*;

verus! {

/// All bytes of a GUID are zero.
pub open spec fn is_zero(guid: Guid) -> bool {
    &&& guid.data1 == 0
    &&& guid.data2 == 0
    &&& guid.data3 == 0
    &&& forall|i: int| 0 <= i < 8 ==> #[trigger] guid.data4@[i] == 0
}

/// The `k`th attribute is the last one named `activity_id`.
pub open spec fn is_last_id(attrs: Seq<Attribute>, k: int) -> bool {
    &&& 0 <= k < attrs.len()
    &&& attrs[k].name@ == "activity_id"@
    &&& forall|j: int| k < j < attrs.len() ==> (#[trigger] attrs[j]).name@ != "activity_id"@
}

/// No attribute is named `activity_id`.
pub open spec fn no_id(attrs: Seq<Attribute>) -> bool {
    forall|j: int| 0 <= j < attrs.len() ==> (#[trigger] attrs[j]).name@ != "activity_id"@
}

proof fn lemma_supplied(attrs: Seq<Attribute>)
    ensures
        forall|k: int| #[trigger]
            is_last_id(attrs, k) ==> supplied_guid(attrs) == guid_of_text(attrs[k].rendered@),
        no_id(attrs) ==> supplied_guid(attrs) is None,
    decreases attrs.len(),
{
    if attrs.len() > 0 {
        let rest = attrs.drop_last();
        lemma_supplied(rest);
        assert(forall|j: int| 0 <= j < rest.len() ==> #[trigger] rest[j] == attrs[j]);
        assert forall|k: int| #[trigger] is_last_id(attrs, k) implies supplied_guid(attrs)
            == guid_of_text(attrs[k].rendered@) by {
            if k < rest.len() {
                assert(attrs[attrs.len() - 1].name@ != "activity_id"@);
                assert(is_last_id(rest, k));
            }
        }
        if no_id(attrs) {
            assert(attrs[attrs.len() - 1].name@ != "activity_id"@);
            assert(no_id(rest));
        }
    }
}

/// The GUID that attributes supply is what the last one named `activity_id` is
/// read as; without one they supply none.
pub proof fn law_extract(attrs: &[Attribute], k: int, r: Option<Guid>)
    requires
        call_ensures(extract_activity_id_attr, (attrs,), r),
    ensures
        is_last_id(attrs@, k) ==> r == guid_of_text(attrs@[k].rendered@),
        no_id(attrs@) ==> r is None,
{
    lemma_supplied(attrs@);
}

/// A field named `activity_id` is read as a GUID, even if one was read before;
/// another field changes nothing.
pub proof fn law_visit(visitor: &mut ActivityIdVisitor, name: &str, rendered: &str)
    requires
        call_ensures(ActivityIdVisitor::record_debug, (visitor, name, rendered), ()),
    ensures
        name@ == "activity_id"@ ==> final(visitor).value == guid_of_text(rendered@),
        name@ != "activity_id"@ ==> final(visitor).value == old(visitor).value,
{
}

/// An answer to the query of the thread is held as it is, and an error is
/// handed on.
pub proof fn law_from_query(
    queried: Result<Guid, win_etw_provider::Error>,
    r: Result<ActivityId, win_etw_provider::Error>,
)
    requires
        call_ensures(ActivityId::from_query, (queried,), r),
    ensures
        queried matches Ok(guid) ==> (r matches Ok(id) && id.0 == guid),
        queried matches Err(e) ==> (r matches Err(other) && other == e),
{
}

/// An ID that was found is used, and all zeros in place of an error.
pub proof fn law_or_default(found: Result<ActivityId, win_etw_provider::Error>, r: ActivityId)
    requires
        call_ensures(ActivityId::or_default, (found,), r),
    ensures
        found matches Ok(id) ==> r == id,
        found is Err ==> is_zero(r.0),
{
}

/// The activity ID of the thread is an answer that the query gave.
pub(crate) proof fn law_from_current_thread(r: Result<ActivityId, win_etw_provider::Error>)
    requires
        call_ensures(ActivityId::from_current_thread, (), r),
    ensures
        r matches Ok(id) ==> call_ensures(query_current_thread, (), Ok(id.0)),
        r matches Err(e) ==> call_ensures(query_current_thread, (), Err(e)),
{
    crate::activity_id::lemma_thread_may_answer();
}

/// The activity ID comes from the thread: it is an answer that the query gave,
/// or all zeros, and then the query can fail.
pub(crate) closed spec fn is_of_thread(id: ActivityId) -> bool {
    ||| call_ensures(query_current_thread, (), Ok(id.0))
    ||| is_zero(id.0) && exists|e: win_etw_provider::Error| #[trigger]
        call_ensures(query_current_thread, (), Err(e))
}

/// A new span has the ID that is supplied, else one that comes from the thread.
pub(crate) proof fn law_for_new_span(supplied: Option<Guid>, r: ActivityId)
    requires
        call_ensures(ActivityId::for_new_span, (supplied,), r),
    ensures
        supplied matches Some(guid) ==> r.0 == guid,
        supplied is None ==> is_of_thread(r),
{
    crate::activity_id::lemma_thread_may_answer();
}

/// A new span has the ID that its last attribute named `activity_id` is read as,
/// else one that comes from the thread.
pub(crate) proof fn law_of_attributes(attrs: &[Attribute], k: int, r: ActivityId)
    requires
        call_ensures(ActivityId::of_attributes, (attrs,), r),
    ensures
        is_last_id(attrs@, k) ==> match guid_of_text(attrs@[k].rendered@) {
            Some(guid) => r.0 == guid,
            None => is_of_thread(r),
        },
        no_id(attrs@) ==> is_of_thread(r),
{
    lemma_supplied(attrs@);
    crate::activity_id::lemma_thread_may_answer();
}

/// The value of a hexadecimal digit in lower case.
pub open spec fn digit_value(c: char) -> int {
    if '0' <= c <= '9' {
        c as int - '0' as int
    } else {
        c as int - 'a' as int + 10
    }
}

/// The number that hexadecimal digits spell, high digit first.
pub open spec fn digits_value(digits: Seq<char>) -> int
    decreases digits.len(),
{
    if digits.len() == 0 {
        0
    } else {
        16 * digits_value(digits.drop_last()) + digit_value(digits.last())
    }
}

/// Every character is a hexadecimal digit in lower case.
pub open spec fn all_digits(text: Seq<char>) -> bool {
    forall|i: int|
        0 <= i < text.len() ==> '0' <= #[trigger] text[i] <= '9' || 'a' <= text[i] <= 'f'
}

/// The digits of a number spell it, as far as they are enough of them.
pub proof fn law_hex(n: int, digits: nat)
    requires
        0 <= n < pow(16, digits),
    ensures
        hex(n, digits).len() == digits,
        all_digits(hex(n, digits)),
        digits_value(hex(n, digits)) == n,
    decreases digits,
{
    reveal(pow);
    if digits > 0 {
        let rest = (digits - 1) as nat;
        assert(n / 16 < pow(16, rest)) by (nonlinear_arith)
            requires
                0 <= n < 16 * pow(16, rest),
        ;
        law_hex(n / 16, rest);
        reveal_strlit("0123456789abcdef");
        let c = "0123456789abcdef"@[n % 16];
        assert(hex(n, digits).drop_last() =~= hex(n / 16, rest));
        assert(hex(n, digits).last() == c);
        assert(digit_value(c) == n % 16);
    }
}

/// The hyphenated form of a GUID has 36 characters: hyphens at four places, and
/// between them the digits of its parts, in order.
pub proof fn law_hyphenated(guid: Guid)
    ensures
        ({
            let text = guid.hyphenated();
            &&& text.len() == 36
            &&& text[8] == '-' && text[13] == '-' && text[18] == '-' && text[23] == '-'
            &&& all_digits(text.subrange(0, 8)) && digits_value(text.subrange(0, 8)) == guid.data1
            &&& all_digits(text.subrange(9, 13)) && digits_value(text.subrange(9, 13))
                == guid.data2
            &&& all_digits(text.subrange(14, 18)) && digits_value(text.subrange(14, 18))
                == guid.data3
            &&& digits_value(text.subrange(19, 21)) == guid.data4@[0]
            &&& digits_value(text.subrange(21, 23)) == guid.data4@[1]
            &&& digits_value(text.subrange(24, 26)) == guid.data4@[2]
            &&& digits_value(text.subrange(26, 28)) == guid.data4@[3]
            &&& digits_value(text.subrange(28, 30)) == guid.data4@[4]
            &&& digits_value(text.subrange(30, 32)) == guid.data4@[5]
            &&& digits_value(text.subrange(32, 34)) == guid.data4@[6]
            &&& digits_value(text.subrange(34, 36)) == guid.data4@[7]
            &&& all_digits(text.subrange(19, 23)) && all_digits(text.subrange(24, 36))
        }),
{
    let text = guid.hyphenated();
    let d = guid.data4@;
    reveal_strlit("-");
    reveal_with_fuel(pow, 9);
    assert(pow(16, 2) == 0x100);
    assert(pow(16, 4) == 0x1_0000);
    assert(pow(16, 8) == 0x1_0000_0000);
    law_hex(guid.data1 as int, 8);
    law_hex(guid.data2 as int, 4);
    law_hex(guid.data3 as int, 4);
    law_hex(d[0] as int, 2);
    law_hex(d[1] as int, 2);
    law_hex(d[2] as int, 2);
    law_hex(d[3] as int, 2);
    law_hex(d[4] as int, 2);
    law_hex(d[5] as int, 2);
    law_hex(d[6] as int, 2);
    law_hex(d[7] as int, 2);
    assert(text.subrange(0, 8) =~= hex(guid.data1 as int, 8));
    assert(text.subrange(9, 13) =~= hex(guid.data2 as int, 4));
    assert(text.subrange(14, 18) =~= hex(guid.data3 as int, 4));
    assert(text.subrange(19, 21) =~= hex(d[0] as int, 2));
    assert(text.subrange(21, 23) =~= hex(d[1] as int, 2));
    assert(text.subrange(24, 26) =~= hex(d[2] as int, 2));
    assert(text.subrange(26, 28) =~= hex(d[3] as int, 2));
    assert(text.subrange(28, 30) =~= hex(d[4] as int, 2));
    assert(text.subrange(30, 32) =~= hex(d[5] as int, 2));
    assert(text.subrange(32, 34) =~= hex(d[6] as int, 2));
    assert(text.subrange(34, 36) =~= hex(d[7] as int, 2));
    assert(text.subrange(19, 23) =~= hex(d[0] as int, 2) + hex(d[1] as int, 2));
    assert(text.subrange(24, 36) =~= hex(d[2] as int, 2) + hex(d[3] as int, 2) + hex(
        d[4] as int,
        2,
    ) + hex(d[5] as int, 2) + hex(d[6] as int, 2) + hex(d[7] as int, 2));
}

} // verus!
