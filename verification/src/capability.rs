//! What a server's capabilities say about how a mailbox may be acquired.

use crate::account::AccountModel;
use crate::failure;
use crate::failure::{raise, BichonError, ErrorCode};
use crate::nonzero::NonZeroU32;
use crate::text;
use crate::text::{characters, is_same_word, parse_u32, text_of, trim};
use vstd::prelude::*;
use vstd::slice::slice_subrange;

verus! {

broadcast use crate::nonzero::lemma_nonzero_u32_of;

/// One capability of a server.
#[derive(Clone, Debug, PartialEq, Eq)]
pub enum Capability {
    Imap4rev1,
    Auth(String),
    Atom(String),
}

/// The text of a capability, as a server lists it.
pub open spec fn capability_text(capability: Capability) -> Seq<char> {
    match capability {
        Capability::Imap4rev1 => "IMAP4rev1"@,
        Capability::Auth(mechanism) => "AUTH="@ + mechanism@,
        Capability::Atom(atom) => atom@,
    }
}

/// Some capability that is the expected word, ASCII case aside.
pub open spec fn lists(capabilities: Seq<Capability>, expected: Seq<char>) -> bool {
    exists|i: int|
        0 <= i < capabilities.len() && text::same_word(
            capability_text(#[trigger] capabilities[i]),
            expected,
        )
}

/// The place of the first `=`, or the length where there is none.
pub open spec fn equals_sign(atom: Seq<char>) -> int
    decreases atom.len(),
{
    if atom.len() > 0 && atom[0] != '=' {
        1 + equals_sign(atom.drop_first())
    } else {
        0
    }
}

/// The limit that a capability `MESSAGELIMIT=<n>` announces.
pub open spec fn limit_of(capability: Capability) -> Option<u32> {
    match capability {
        Capability::Atom(atom) => {
            let at = equals_sign(atom@);
            if at < atom@.len() && text::same_word(atom@.take(at), "MESSAGELIMIT"@)
                && text::parsed_u32(atom@.skip(at + 1)) != Some(0u32) {
                text::parsed_u32(atom@.skip(at + 1))
            } else {
                None
            }
        },
        _ => None,
    }
}

/// A capability whose name is `MESSAGELIMIT`, whatever its value.
pub open spec fn names_limit(capability: Capability) -> bool {
    match capability {
        Capability::Atom(atom) => text::same_word(
            atom@.take(equals_sign(atom@)),
            "MESSAGELIMIT"@,
        ),
        _ => false,
    }
}

/// The least limit that the capabilities announce.
pub open spec fn least_limit(capabilities: Seq<Capability>) -> Option<NonZeroU32>
    decreases capabilities.len(),
{
    if capabilities.len() == 0 {
        None
    } else {
        let earlier = least_limit(capabilities.drop_last());
        match limit_of(capabilities.last()) {
            None => earlier,
            Some(limit) => conservative(earlier, Some(NonZeroU32::of(limit))),
        }
    }
}

fn find_equals_sign(atom: &[char]) -> (at: usize)
    ensures
        at == equals_sign(atom@),
        at <= atom@.len(),
{
    let mut at: usize = 0;
    assert(atom@.skip(0) =~= atom@);
    while at < atom.len() && atom[at] != '='
        invariant
            at <= atom@.len(),
            equals_sign(atom@) == at + equals_sign(atom@.skip(at as int)),
        decreases atom.len() - at,
    {
        assert(atom@.skip(at as int).drop_first() =~= atom@.skip(at + 1));
        at = at + 1;
    }
    at
}

/// The text of a capability.
pub fn capability_to_string(capability: &Capability) -> (result: String)
    ensures
        result@ == capability_text(*capability),
{
    match capability {
        Capability::Imap4rev1 => "IMAP4rev1".to_owned(),
        Capability::Auth(mechanism) => {
            let mut result = "AUTH=".to_owned();
            text::push_text(&mut result, mechanism.as_str());
            result
        },
        Capability::Atom(atom) => atom.as_str().to_owned(),
    }
}

/// Whether a capability is the expected word, ASCII case aside.
pub fn capability_matches(capability: &Capability, expected: &str) -> (result: bool)
    ensures
        result == text::same_word(capability_text(*capability), expected@),
{
    let listed = capability_to_string(capability);
    is_same_word(listed.as_str(), expected)
}

/// Whether some capability is the expected word, ASCII case aside.
pub fn has_capability(capabilities: &[Capability], expected: &str) -> (result: bool)
    ensures
        result == lists(capabilities@, expected@),
{
    let mut i: usize = 0;
    while i < capabilities.len()
        invariant
            i <= capabilities@.len(),
            forall|j: int|
                0 <= j < i ==> !text::same_word(
                    capability_text(#[trigger] capabilities@[j]),
                    expected@,
                ),
        decreases capabilities.len() - i,
    {
        if capability_matches(&capabilities[i], expected) {
            assert(text::same_word(capability_text(capabilities@[i as int]), expected@));
            return true;
        }
        i = i + 1;
    }
    false
}

fn message_limit_of(capability: &Capability) -> (limit: Option<NonZeroU32>)
    ensures
        limit == match limit_of(*capability) {
            Some(n) => Some(NonZeroU32::of(n)),
            None => None,
        },
{
    match capability {
        Capability::Atom(atom) => {
            let atom = characters(atom.as_str());
            let at = find_equals_sign(atom.as_slice());
            if at == atom.len() {
                return None;
            }
            let name = text_of(slice_subrange(atom.as_slice(), 0, at));
            let value = slice_subrange(atom.as_slice(), at + 1, atom.len());
            assert(atom@.subrange(0, at as int) =~= atom@.take(at as int));
            assert(value@ =~= atom@.skip(at + 1));
            if !is_same_word(name.as_str(), "MESSAGELIMIT") {
                return None;
            }
            match parse_u32(value) {
                None => None,
                Some(number) => NonZeroU32::new(number),
            }
        },
        _ => None,
    }
}

/// The least message limit that the capabilities announce.
pub fn advertised_message_limit(capabilities: &[Capability]) -> (limit: Option<NonZeroU32>)
    ensures
        limit == least_limit(capabilities@),
{
    let mut least: Option<NonZeroU32> = None;
    let mut i: usize = 0;
    while i < capabilities.len()
        invariant
            i <= capabilities@.len(),
            least == least_limit(capabilities@.take(i as int)),
        decreases capabilities.len() - i,
    {
        assert(capabilities@.take(i + 1).drop_last() =~= capabilities@.take(i as int));
        match message_limit_of(&capabilities[i]) {
            None => {},
            Some(limit) => {
                least = conservative_message_limit(least, Some(limit));
            },
        }
        i = i + 1;
    }
    assert(capabilities@.take(i as int) =~= capabilities@);
    least
}

/// Whether some capability is named `MESSAGELIMIT`, whatever its value.
pub fn has_message_limit_capability(capabilities: &[Capability]) -> (result: bool)
    ensures
        result == exists|i: int|
            0 <= i < capabilities@.len() && names_limit(#[trigger] capabilities@[i]),
{
    let mut i: usize = 0;
    while i < capabilities.len()
        invariant
            i <= capabilities@.len(),
            forall|j: int| 0 <= j < i ==> !names_limit(#[trigger] capabilities@[j]),
        decreases capabilities.len() - i,
    {
        match &capabilities[i] {
            Capability::Atom(atom) => {
                let atom = characters(atom.as_str());
                let at = find_equals_sign(atom.as_slice());
                let name = text_of(slice_subrange(atom.as_slice(), 0, at));
                assert(atom@.subrange(0, at as int) =~= atom@.take(at as int));
                if is_same_word(name.as_str(), "MESSAGELIMIT") {
                    assert(names_limit(capabilities@[i as int]));
                    return true;
                }
            },
            _ => {},
        }
        i = i + 1;
    }
    false
}

/// The smaller of two limits; an absent one does not count.
pub open spec fn conservative(first: Option<NonZeroU32>, second: Option<NonZeroU32>) -> Option<
    NonZeroU32,
> {
    match (first, second) {
        (Some(a), Some(b)) => if b@ < a@ {
            Some(b)
        } else {
            Some(a)
        },
        (Some(a), None) => Some(a),
        (None, b) => b,
    }
}

/// The smaller of two limits; an absent one does not count.
pub fn conservative_message_limit(
    first: Option<NonZeroU32>,
    second: Option<NonZeroU32>,
) -> (limit: Option<NonZeroU32>)
    ensures
        limit == conservative(first, second),
{
    match (first, second) {
        (Some(first), Some(second)) => Some(first.min(second)),
        (Some(limit), None) => Some(limit),
        (None, Some(limit)) => Some(limit),
        (None, None) => None,
    }
}

/// How the archive path goes on after a probe.
#[derive(Clone, Copy, Debug, PartialEq, Eq, Structural)]
pub enum AcquisitionRoute {
    Standard,
    UidOnly,
    Limited,
}

/// UIDONLY needs PARTIAL; UIDONLY or a message limit without it is a limited server.
pub open spec fn route(uidonly: bool, partial: bool, message_limit: bool) -> AcquisitionRoute {
    if uidonly && partial {
        AcquisitionRoute::UidOnly
    } else if uidonly || message_limit {
        AcquisitionRoute::Limited
    } else {
        AcquisitionRoute::Standard
    }
}

pub fn acquisition_route(
    uidonly_advertised: bool,
    partial_advertised: bool,
    message_limit_advertised: bool,
) -> (result: AcquisitionRoute)
    ensures
        result == route(uidonly_advertised, partial_advertised, message_limit_advertised),
{
    if uidonly_advertised && partial_advertised {
        AcquisitionRoute::UidOnly
    } else if uidonly_advertised || message_limit_advertised {
        AcquisitionRoute::Limited
    } else {
        AcquisitionRoute::Standard
    }
}

/// How a mailbox is acquired, by the capabilities that the server lists.
#[derive(Clone, Copy, Debug, PartialEq, Eq, Structural)]
pub enum CapabilityRoute {
    Legacy,
    UidOnly { message_limit: u32 },
}

/// A listed capability that is the expected word, white space and ASCII case aside.
pub open spec fn is_word(value: Seq<char>, expected: Seq<char>) -> bool {
    text::same_word(text::trimmed(value), expected)
}

/// A listed capability that begins with `MESSAGELIMIT`.
pub open spec fn limit_marker(value: Seq<char>) -> bool {
    text::trimmed(value).len() >= 12 && text::same_word(
        text::trimmed(value).take(12),
        "MESSAGELIMIT"@,
    )
}

/// The limit that a listed `MESSAGELIMIT=<n>` announces; zero is none.
pub open spec fn listed_limit(value: Seq<char>) -> Option<u32> {
    let listed = text::trimmed(value);
    if listed.len() >= 13 && text::same_word(listed.take(13), "MESSAGELIMIT="@)
        && text::parsed_u32(listed.skip(13)) != Some(0u32) {
        text::parsed_u32(listed.skip(13))
    } else {
        None
    }
}

/// The listed capabilities that are the expected word.
pub open spec fn words(capabilities: Seq<String>, expected: Seq<char>) -> Seq<String> {
    capabilities.filter(|value: String| is_word(value@, expected))
}

/// The listed capabilities that begin with `MESSAGELIMIT`.
pub open spec fn markers(capabilities: Seq<String>) -> Seq<String> {
    capabilities.filter(|value: String| limit_marker(value@))
}

/// The route of a server: exactly one each of UIDONLY, PARTIAL and a valid message
/// limit, or neither UIDONLY nor a limit; everything else is refused.
pub open spec fn classified(capabilities: Seq<String>) -> Result<CapabilityRoute, failure::Failure> {
    let limits = markers(capabilities);
    if words(capabilities, "UIDONLY"@).len() == 0 && limits.len() == 0 {
        Ok(CapabilityRoute::Legacy)
    } else if words(capabilities, "UIDONLY"@).len() != 1 || words(capabilities, "PARTIAL"@).len()
        != 1 || limits.len() != 1 {
        Err(
            failure::failure(
                ErrorCode::Incompatible,
                "Server advertised an incomplete or ambiguous UIDONLY capability set"@,
            ),
        )
    } else {
        match listed_limit(limits[0]@) {
            Some(message_limit) => Ok(CapabilityRoute::UidOnly { message_limit }),
            None => Err(
                failure::failure(
                    ErrorCode::Incompatible,
                    "Server advertised an invalid UIDONLY MESSAGELIMIT"@,
                ),
            ),
        }
    }
}

fn trimmed_text(value: &str) -> (result: Vec<char>)
    ensures
        result@ == text::trimmed(value@),
{
    let all = characters(value);
    let kept = trim(all.as_slice());
    let mut result: Vec<char> = Vec::new();
    result.extend_from_slice(kept);
    assert(result@ =~= kept@);
    result
}

/// Whether a listed capability is the expected word.
pub fn is_capability(value: &str, expected: &str) -> (result: bool)
    ensures
        result == is_word(value@, expected@),
{
    let listed = trimmed_text(value);
    let listed = text_of(listed.as_slice());
    is_same_word(listed.as_str(), expected)
}

/// Whether a listed capability begins with `MESSAGELIMIT`.
pub fn is_message_limit_marker(value: &str) -> (result: bool)
    ensures
        result == limit_marker(value@),
{
    let listed = trimmed_text(value);
    if listed.len() < 12 {
        return false;
    }
    let head = text_of(slice_subrange(listed.as_slice(), 0, 12));
    assert(listed@.subrange(0, 12) =~= listed@.take(12));
    is_same_word(head.as_str(), "MESSAGELIMIT")
}

fn read_listed_limit(value: &str) -> (result: Option<u32>)
    ensures
        result == listed_limit(value@),
{
    let listed = trimmed_text(value);
    if listed.len() < 13 {
        return None;
    }
    let head = text_of(slice_subrange(listed.as_slice(), 0, 13));
    assert(listed@.subrange(0, 13) =~= listed@.take(13));
    if !is_same_word(head.as_str(), "MESSAGELIMIT=") {
        return None;
    }
    let tail = slice_subrange(listed.as_slice(), 13, listed.len());
    assert(tail@ =~= listed@.skip(13));
    match parse_u32(tail) {
        None => None,
        Some(number) => if number == 0 {
            None
        } else {
            Some(number)
        },
    }
}

fn count_words(capabilities: &[String], expected: &str) -> (count: usize)
    ensures
        count == words(capabilities@, expected@).len(),
{
    let ghost wanted = |value: String| is_word(value@, expected@);
    let mut count: usize = 0;
    let mut i: usize = 0;
    assert(capabilities@.take(0).filter(wanted).len() == 0) by {
        reveal(Seq::filter);
    }
    while i < capabilities.len()
        invariant
            wanted == (|value: String| is_word(value@, expected@)),
            count <= i <= capabilities@.len(),
            count == capabilities@.take(i as int).filter(wanted).len(),
        decreases capabilities.len() - i,
    {
        proof {
            reveal(Seq::filter);
            assert(capabilities@.take(i + 1).drop_last() =~= capabilities@.take(i as int));
            assert(wanted(capabilities@[i as int]) == is_word(
                capabilities@[i as int]@,
                expected@,
            ));
        }
        if is_capability(capabilities[i].as_str(), expected) {
            count = count + 1;
        }
        i = i + 1;
    }
    assert(capabilities@.take(i as int) =~= capabilities@);
    count
}

/// How many listed capabilities begin with `MESSAGELIMIT`, and the limit of the first.
fn find_markers(capabilities: &[String]) -> (result: (usize, Option<u32>))
    ensures
        result.0 == markers(capabilities@).len(),
        result.0 > 0 ==> result.1 == listed_limit(markers(capabilities@)[0]@),
{
    let ghost wanted = |value: String| limit_marker(value@);
    let mut count: usize = 0;
    let mut first: Option<u32> = None;
    let mut i: usize = 0;
    assert(capabilities@.take(0).filter(wanted).len() == 0) by {
        reveal(Seq::filter);
    }
    while i < capabilities.len()
        invariant
            wanted == (|value: String| limit_marker(value@)),
            count <= i <= capabilities@.len(),
            count == capabilities@.take(i as int).filter(wanted).len(),
            count > 0 ==> first == listed_limit(capabilities@.take(i as int).filter(wanted)[0]@),
        decreases capabilities.len() - i,
    {
        let ghost before = capabilities@.take(i as int).filter(wanted);
        proof {
            reveal(Seq::filter);
            assert(capabilities@.take(i + 1).drop_last() =~= capabilities@.take(i as int));
            assert(wanted(capabilities@[i as int]) == limit_marker(capabilities@[i as int]@));
        }
        if is_message_limit_marker(capabilities[i].as_str()) {
            assert(capabilities@.take(i + 1).filter(wanted) == before.push(
                capabilities@[i as int],
            ));
            if count == 0 {
                first = read_listed_limit(capabilities[i].as_str());
            }
            count = count + 1;
        }
        i = i + 1;
    }
    assert(capabilities@.take(i as int) =~= capabilities@);
    (count, first)
}

/// The route of a server by its listed capabilities.
pub fn classify_capabilities(capabilities: &[String]) -> (result: Result<
    CapabilityRoute,
    BichonError,
>)
    ensures
        failure::judged(result) == classified(capabilities@),
{
    let uidonly = count_words(capabilities, "UIDONLY");
    let partial = count_words(capabilities, "PARTIAL");
    let (limits, limit) = find_markers(capabilities);
    if uidonly == 0 && limits == 0 {
        return Ok(CapabilityRoute::Legacy);
    }
    if uidonly != 1 || partial != 1 || limits != 1 {
        return Err(
            raise(
                ErrorCode::Incompatible,
                "Server advertised an incomplete or ambiguous UIDONLY capability set",
            ),
        );
    }
    match limit {
        Some(message_limit) => Ok(CapabilityRoute::UidOnly { message_limit }),
        None => Err(
            raise(
                ErrorCode::Incompatible,
                "Server advertised an invalid UIDONLY MESSAGELIMIT",
            ),
        ),
    }
}

/// An account takes the UIDONLY route only where it opted in.
pub fn require_uidonly_opt_in(account: &AccountModel, capability_route: CapabilityRoute) -> (result:
    Result<(), BichonError>)
    ensures
        failure::judged(result) == if capability_route is UidOnly && !account.uidonly_enabled {
            Err(
                failure::failure(
                    ErrorCode::Incompatible,
                    "Server requires UIDONLY acquisition; enable uidonly_enabled for this account after reviewing the storage transition"@,
                ),
            )
        } else {
            Ok(())
        },
{
    let uidonly = match capability_route {
        CapabilityRoute::UidOnly { .. } => true,
        CapabilityRoute::Legacy => false,
    };
    if uidonly && !account.uidonly_enabled {
        return Err(
            raise(
                ErrorCode::Incompatible,
                "Server requires UIDONLY acquisition; enable uidonly_enabled for this account after reviewing the storage transition",
            ),
        );
    }
    Ok(())
}

/// A remembered capability that only a limited server lists.
pub open spec fn limited(value: Seq<char>) -> bool {
    is_word(value, "UIDONLY"@) || limit_marker(value)
}

pub open spec fn some_limited(capabilities: Seq<String>) -> bool {
    exists|i: int| 0 <= i < capabilities.len() && limited((#[trigger] capabilities[i])@)
}

/// The capabilities remembered of an account mark its server as limited.
pub open spec fn remembered_limited(account: AccountModel) -> bool {
    account.capabilities matches Some(capabilities) && some_limited(capabilities@)
}

fn is_some_limited(capabilities: &[String]) -> (result: bool)
    ensures
        result == some_limited(capabilities@),
{
    let mut i: usize = 0;
    while i < capabilities.len()
        invariant
            i <= capabilities@.len(),
            forall|j: int| 0 <= j < i ==> !limited((#[trigger] capabilities@[j])@),
        decreases capabilities.len() - i,
    {
        let value = capabilities[i].as_str();
        if is_capability(value, "UIDONLY") || is_message_limit_marker(value) {
            assert(limited(capabilities@[i as int]@));
            return true;
        }
        i = i + 1;
    }
    false
}

/// Whether the capabilities remembered of an account mark its server as limited.
pub fn account_requires_uidonly(account: &AccountModel) -> (result: bool)
    ensures
        result == remembered_limited(*account),
{
    match &account.capabilities {
        None => false,
        Some(capabilities) => is_some_limited(capabilities.as_slice()),
    }
}

/// PARTIAL alone never leaves the ordinary route, and the UIDONLY route always has a
/// limit above zero.
pub proof fn law_partial_alone_is_ordinary(capabilities: Seq<String>)
    ensures
        words(capabilities, "UIDONLY"@).len() == 0 && markers(capabilities).len() == 0
            ==> classified(capabilities) == Ok::<CapabilityRoute, failure::Failure>(
            CapabilityRoute::Legacy,
        ),
        classified(capabilities) matches Ok(CapabilityRoute::UidOnly { message_limit })
            ==> message_limit > 0 && words(capabilities, "UIDONLY"@).len() == 1 && words(
            capabilities,
            "PARTIAL"@,
        ).len() == 1,
{
}

/// The conservative limit is no larger than either limit, and does not depend on
/// their order.
pub proof fn law_conservative_limit_is_least(first: Option<NonZeroU32>, second: Option<NonZeroU32>)
    ensures
        first matches Some(a) ==> conservative(first, second) is Some && conservative(
            first,
            second,
        )->0@ <= a@,
        second matches Some(b) ==> conservative(first, second) is Some && conservative(
            first,
            second,
        )->0@ <= b@,
        conservative(first, second) == first || conservative(first, second) == second,
        conservative(first, second) == conservative(second, first),
{
    broadcast use crate::nonzero::lemma_nonzero_u32_view;

}

/// The least limit is announced, and no announced limit is smaller.
pub proof fn law_least_limit_is_least(capabilities: Seq<Capability>, i: int)
    requires
        0 <= i < capabilities.len(),
    ensures
        limit_of(capabilities[i]) matches Some(limit) ==> least_limit(capabilities) is Some
            && least_limit(capabilities)->0@ <= limit,
        least_limit(capabilities) matches Some(least) ==> exists|j: int|
            0 <= j < capabilities.len() && limit_of(#[trigger] capabilities[j]) == Some(least@),
    decreases capabilities.len(),
{
    let before = capabilities.drop_last();
    let last = capabilities.len() - 1;
    if before.len() > 0 {
        law_least_limit_is_least(before, if i < last { i } else { 0 });
    }
    if let Some(least) = least_limit(capabilities) {
        if least_limit(before) == Some(least) {
            let j = choose|j: int|
                0 <= j < before.len() && limit_of(#[trigger] before[j]) == Some(least@);
            assert(limit_of(capabilities[j]) == Some(least@));
        } else {
            assert(limit_of(capabilities[last]) == Some(least@));
        }
    }
}

} // verus!
