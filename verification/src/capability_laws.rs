//! What a server's capabilities lead to.

use crate::capability;
use crate::capability::{AcquisitionRoute, Capability, CapabilityRoute};
use crate::connection;
use crate::connection::{AcquisitionBuild, ProbeRoute};
use crate::failure::{ErrorCode, Failure};
use crate::message_laws;
use crate::nonzero::NonZeroU32;
use crate::text;
use crate::text_laws;
use vstd::prelude::*;

verus! {

broadcast use crate::nonzero::lemma_nonzero_u32_of;

/// UIDONLY together with PARTIAL is enough for its route; a server with neither UIDONLY nor
/// a message limit is an ordinary one; every other is limited.
pub proof fn law_routes_follow_the_extensions(uidonly: bool, partial: bool, message_limit: bool)
    ensures
        capability::route(uidonly, partial, message_limit) == AcquisitionRoute::UidOnly <==> uidonly
            && partial,
        capability::route(uidonly, partial, message_limit) == AcquisitionRoute::Standard
            <==> !uidonly && !message_limit,
        capability::route(uidonly, partial, message_limit) == AcquisitionRoute::Limited <==> (
        uidonly && !partial) || (!uidonly && message_limit),
{
}

/// A capability is listed where one of those listed is that word in whatever case, and only
/// there; an authentication mechanism is listed behind `AUTH=`.
pub proof fn law_capabilities_are_listed_in_any_case(
    capabilities: Seq<Capability>,
    expected: Seq<char>,
    i: int,
)
    requires
        0 <= i < capabilities.len(),
    ensures
        capabilities[i] matches Capability::Atom(atom) ==> (text::lowercase(atom@)
            == text::lowercase(expected) ==> capability::lists(capabilities, expected)),
        capabilities[i] matches Capability::Auth(mechanism) ==> capability::lists(
            capabilities,
            "AUTH="@ + mechanism@,
        ),
        !capability::lists(Seq::<Capability>::empty(), expected),
        capability::lists(capabilities, expected) ==> exists|j: int|
            0 <= j < capabilities.len() && text::lowercase(
                capability::capability_text(#[trigger] capabilities[j]),
            ) == text::lowercase(expected),
{
    text_laws::law_words_agree_in_small_letters(
        capability::capability_text(capabilities[i]),
        expected,
    );
    if let Capability::Auth(mechanism) = capabilities[i] {
        text_laws::law_words_agree_in_small_letters(
            capability::capability_text(capabilities[i]),
            "AUTH="@ + mechanism@,
        );
        assert(text::same_word(
            capability::capability_text(capabilities[i]),
            "AUTH="@ + mechanism@,
        ));
    }
    if capability::lists(capabilities, expected) {
        let j = choose|j: int|
            0 <= j < capabilities.len() && text::same_word(
                capability::capability_text(#[trigger] capabilities[j]),
                expected,
            );
        text_laws::law_words_agree_in_small_letters(
            capability::capability_text(capabilities[j]),
            expected,
        );
    }
}

proof fn lemma_equals_sign(name: Seq<char>, value: Seq<char>)
    requires
        !name.contains('='),
    ensures
        capability::equals_sign(name + seq!['='] + value) == name.len(),
        capability::equals_sign(name) == name.len(),
    decreases name.len(),
{
    let all = name + seq!['='] + value;
    if name.len() > 0 {
        let rest = name.drop_first();
        assert(name.contains(name[0]));
        assert(!rest.contains('=')) by {
            if rest.contains('=') {
                let i = choose|i: int| 0 <= i < rest.len() && rest[i] == '=';
                assert(name[i + 1] == '=');
            }
        }
        lemma_equals_sign(rest, value);
        assert(all.drop_first() =~= rest + seq!['='] + value);
        assert(all[0] == name[0]);
    } else {
        assert(all[0] == '=');
    }
}

/// A message limit is announced as `MESSAGELIMIT=`, in whatever case, with a number behind
/// it that is not zero; then it is that number.
pub proof fn law_announced_limit_is_its_number(atom: String, name: Seq<char>, n: nat)
    requires
        text::lowercase(name) == text::lowercase("MESSAGELIMIT"@),
        atom@ == name + seq!['='] + text::numeral(n),
    ensures
        0 < n <= u32::MAX ==> capability::limit_of(Capability::Atom(atom)) == Some(n as u32),
        n == 0 || n > u32::MAX ==> capability::limit_of(Capability::Atom(atom)) is None,
        capability::names_limit(Capability::Atom(atom)),
{
    let expected = "MESSAGELIMIT"@;
    text_laws::law_words_agree_in_small_letters(name, expected);
    assert(!name.contains('=')) by {
        if name.contains('=') {
            let i = choose|i: int| 0 <= i < name.len() && name[i] == '=';
            reveal_strlit("MESSAGELIMIT");
            assert(text::small(name[i] as int) == text::small(expected[i] as int));
        }
    }
    lemma_equals_sign(name, text::numeral(n));
    let at = name.len() as int;
    assert(atom@.take(at) =~= name);
    assert(atom@.skip(at + 1) =~= text::numeral(n));
    text_laws::law_numerals_read_back(n);
}

/// A capability that is not so named announces no limit.
pub proof fn law_other_capabilities_announce_no_limit(capability: Capability)
    ensures
        capability is Imap4rev1 || capability is Auth ==> capability::limit_of(capability) is None
            && !capability::names_limit(capability),
        capability::limit_of(capability) is Some ==> capability::names_limit(capability)
            && capability::limit_of(capability)->0 > 0,
{
}

/// Without any named limit there is none, and a single one that is valid is the least.
pub proof fn law_single_limit_is_the_least(capabilities: Seq<Capability>, i: int)
    requires
        0 <= i < capabilities.len(),
        forall|j: int|
            0 <= j < capabilities.len() && j != i ==> capability::limit_of(
                #[trigger] capabilities[j],
            ) is None,
    ensures
        match capability::limit_of(capabilities[i]) {
            None => capability::least_limit(capabilities) is None,
            Some(n) => capability::least_limit(capabilities) is Some && capability::least_limit(
                capabilities,
            )->0@ == n,
        },
{
    capability::law_least_limit_is_least(capabilities, i);
    if let Some(least) = capability::least_limit(capabilities) {
        let j = choose|j: int|
            0 <= j < capabilities.len() && capability::limit_of(#[trigger] capabilities[j]) == Some(
                least@,
            );
        assert(j == i);
    }
}

/// The smaller of two limits, and the one that there is where there is only one.
pub proof fn law_conservative_limit_is_the_smaller(
    first: Option<NonZeroU32>,
    second: Option<NonZeroU32>,
)
    ensures
        ({
            let limit = capability::conservative(first, second);
            &&& first is None ==> limit == second
            &&& second is None ==> limit == first
            &&& first is Some && second is Some && first->0@ <= second->0@ ==> limit is Some
                && limit->0@ == first->0@
            &&& first is Some && second is Some && second->0@ <= first->0@ ==> limit is Some
                && limit->0@ == second->0@
        }),
{
}

/// Where the probe of a server leads. An ordinary server, and one with UIDONLY and PARTIAL
/// whose limit, if it names one, is valid, are never refused; a server is refused where it
/// names a limit that is not valid, and where it is limited without both extensions.
pub proof fn law_probe_leads_to_its_route(capabilities: Seq<Capability>)
    ensures
        ({
            let uidonly = capability::lists(capabilities, "UIDONLY"@);
            let partial = capability::lists(capabilities, "PARTIAL"@);
            let named = exists|i: int|
                0 <= i < capabilities.len() && capability::names_limit(#[trigger] capabilities[i]);
            let valid = exists|i: int|
                0 <= i < capabilities.len() && capability::limit_of(
                    #[trigger] capabilities[i],
                ) is Some;
            let route = connection::probed(capabilities);
            &&& !uidonly && !named ==> route == Ok::<ProbeRoute, Failure>(ProbeRoute::Standard)
            &&& uidonly && partial && (named ==> valid) ==> route == Ok::<ProbeRoute, Failure>(
                ProbeRoute::UidOnly { message_limit: capability::least_limit(capabilities) },
            )
            &&& uidonly && partial && !named ==> route == Ok::<ProbeRoute, Failure>(
                ProbeRoute::UidOnly { message_limit: None },
            )
            &&& named && !valid ==> route is Err
            &&& uidonly && !partial ==> route is Err
            &&& named && !uidonly ==> route is Err
            &&& route matches Err(e) ==> e.code == ErrorCode::Incompatible
        }),
{
    lemma_least_limit_needs_a_valid_one(capabilities);
    if exists|i: int|
        0 <= i < capabilities.len() && capability::limit_of(#[trigger] capabilities[i]) is Some {
        let i = choose|i: int|
            0 <= i < capabilities.len() && capability::limit_of(#[trigger] capabilities[i]) is Some;
        capability::law_least_limit_is_least(capabilities, i);
        assert(capability::names_limit(capabilities[i]));
    }
}

proof fn lemma_least_limit_needs_a_valid_one(capabilities: Seq<Capability>)
    ensures
        capability::least_limit(capabilities) is Some ==> exists|i: int|
            0 <= i < capabilities.len() && capability::limit_of(#[trigger] capabilities[i]) is Some,
{
    if capabilities.len() > 0 {
        capability::law_least_limit_is_least(capabilities, 0);
    }
}

/// A connection is activated where both extensions are still listed and a limit that is
/// named is valid; its message limit is then the smaller of what both connections
/// announced. Any other connection is refused.
pub proof fn law_activation_succeeds(
    capabilities: Seq<Capability>,
    probed_limit: Option<NonZeroU32>,
)
    ensures
        ({
            let uidonly = capability::lists(capabilities, "UIDONLY"@);
            let partial = capability::lists(capabilities, "PARTIAL"@);
            let named = exists|i: int|
                0 <= i < capabilities.len() && capability::names_limit(#[trigger] capabilities[i]);
            let least = capability::least_limit(capabilities);
            let result = connection::activated(capabilities, probed_limit);
            let sound = uidonly && partial && (named ==> least is Some);
            &&& !sound ==> result is Err && result->Err_0.code == ErrorCode::Incompatible
            &&& sound && least is None ==> result == Ok::<Option<NonZeroU32>, Failure>(probed_limit)
            &&& sound && probed_limit is None ==> result == Ok::<Option<NonZeroU32>, Failure>(least)
            &&& sound && least is Some && probed_limit is Some ==> {
                &&& result matches Ok(Some(limit))
                &&& limit@ <= least->0@ && limit@ <= probed_limit->0@
                &&& limit@ == least->0@ || limit@ == probed_limit->0@
            }
        }),
{
}

/// Building a connection takes two looks at the server: the first decides between an
/// ordinary connection and activation, and the second gives the limit with which UIDONLY is
/// enabled; nothing is decided after that.
pub proof fn law_building_looks_twice(
    first: Seq<Capability>,
    second: Seq<Capability>,
    third: Seq<Capability>,
)
    ensures
        match connection::probed(first) {
            Err(e) => connection::built(AcquisitionBuild::Probing, first) == Err::<
                AcquisitionBuild,
                Failure,
            >(e),
            Ok(ProbeRoute::Standard) => {
                &&& connection::built(AcquisitionBuild::Probing, first) == Ok::<
                    AcquisitionBuild,
                    Failure,
                >(AcquisitionBuild::Standard)
                &&& connection::built(AcquisitionBuild::Standard, second) == Ok::<
                    AcquisitionBuild,
                    Failure,
                >(AcquisitionBuild::Standard)
            },
            Ok(ProbeRoute::UidOnly { message_limit: probed }) => {
                &&& connection::built(AcquisitionBuild::Probing, first) matches Ok(step)
                &&& match connection::activated(second, probed) {
                    Err(e) => connection::built(step, second) == Err::<AcquisitionBuild, Failure>(
                        e,
                    ),
                    Ok(message_limit) => {
                        let enabling = AcquisitionBuild::Enabling { message_limit };
                        &&& connection::built(step, second) == Ok::<AcquisitionBuild, Failure>(
                            enabling,
                        )
                        &&& connection::built(enabling, third) == Ok::<AcquisitionBuild, Failure>(
                            enabling,
                        )
                    },
                }
            },
        },
{
}

/// Only one of some values satisfies a condition.
proof fn lemma_one_is_kept<A>(s: Seq<A>, keep: spec_fn(A) -> bool, i: int)
    requires
        0 <= i < s.len(),
        keep(s[i]),
        forall|j: int| 0 <= j < s.len() && j != i ==> !keep(#[trigger] s[j]),
    ensures
        s.filter(keep) == seq![s[i]],
    decreases s.len(),
{
    message_laws::lemma_filter_from_front(s, keep);
    let rest = s.drop_first();
    if i == 0 {
        lemma_none_is_kept(rest, keep);
        assert(seq![s[0]] + rest.filter(keep) =~= seq![s[0]]);
    } else {
        assert(!keep(s[0]));
        assert(rest[i - 1] == s[i]);
        assert forall|j: int| 0 <= j < rest.len() && j != i - 1 implies !keep(
            #[trigger] rest[j],
        ) by {
            assert(rest[j] == s[j + 1]);
        }
        lemma_one_is_kept(rest, keep, i - 1);
    }
}

proof fn lemma_none_is_kept<A>(s: Seq<A>, keep: spec_fn(A) -> bool)
    requires
        forall|j: int| 0 <= j < s.len() ==> !keep(#[trigger] s[j]),
    ensures
        s.filter(keep) == Seq::<A>::empty(),
    decreases s.len(),
{
    if s.len() > 0 {
        message_laws::lemma_filter_from_front(s, keep);
        let rest = s.drop_first();
        assert forall|j: int| 0 <= j < rest.len() implies !keep(#[trigger] rest[j]) by {
            assert(rest[j] == s[j + 1]);
        }
        assert(!keep(s[0]));
        lemma_none_is_kept(rest, keep);
    } else {
        reveal(Seq::filter);
    }
}

proof fn lemma_kept_is_counted<A>(s: Seq<A>, keep: spec_fn(A) -> bool, i: int, j: int)
    requires
        0 <= i <= j < s.len(),
        keep(s[i]),
        keep(s[j]),
    ensures
        s.filter(keep).len() >= 1,
        i < j ==> s.filter(keep).len() >= 2,
    decreases s.len(),
{
    message_laws::lemma_filter_from_front(s, keep);
    let rest = s.drop_first();
    if i > 0 {
        assert(rest[i - 1] == s[i] && rest[j - 1] == s[j]);
        lemma_kept_is_counted(rest, keep, i - 1, j - 1);
    } else if j > 0 {
        assert(rest[j - 1] == s[j]);
        lemma_kept_is_counted(rest, keep, j - 1, j - 1);
    }
}

/// The only one of the listed capabilities that is this word.
pub open spec fn only_word(capabilities: Seq<String>, word: Seq<char>, i: int) -> bool {
    &&& 0 <= i < capabilities.len()
    &&& capability::is_word(capabilities[i]@, word)
    &&& forall|j: int|
        0 <= j < capabilities.len() && j != i ==> !capability::is_word(
            (#[trigger] capabilities[j])@,
            word,
        )
}

/// The only one of the listed capabilities that begins with the name of the limit.
pub open spec fn only_limit(capabilities: Seq<String>, i: int) -> bool {
    &&& 0 <= i < capabilities.len()
    &&& capability::limit_marker(capabilities[i]@)
    &&& forall|j: int|
        0 <= j < capabilities.len() && j != i ==> !capability::limit_marker(
            (#[trigger] capabilities[j])@,
        )
}

/// A server that lists UIDONLY, PARTIAL and a limit, each once and in whatever order among
/// whatever else, is acquired by UID with the limit that it lists; it is refused only where
/// that is no number above zero.
pub proof fn law_full_set_leads_to_uidonly(
    capabilities: Seq<String>,
    uidonly: int,
    partial: int,
    limit: int,
)
    requires
        only_word(capabilities, "UIDONLY"@, uidonly),
        only_word(capabilities, "PARTIAL"@, partial),
        only_limit(capabilities, limit),
    ensures
        match capability::listed_limit(capabilities[limit]@) {
            Some(message_limit) => capability::classified(capabilities) == Ok::<
                CapabilityRoute,
                Failure,
            >(CapabilityRoute::UidOnly { message_limit }),
            None => capability::classified(capabilities) is Err,
        },
{
    lemma_one_is_kept(
        capabilities,
        |value: String| capability::is_word(value@, "UIDONLY"@),
        uidonly,
    );
    lemma_one_is_kept(
        capabilities,
        |value: String| capability::is_word(value@, "PARTIAL"@),
        partial,
    );
    lemma_one_is_kept(
        capabilities,
        |value: String| capability::limit_marker(value@),
        limit,
    );
}

/// A server that lists neither UIDONLY nor a limit is an ordinary one, whatever else it
/// lists.
pub proof fn law_ordinary_server_is_acquired_as_ever(capabilities: Seq<String>)
    requires
        forall|i: int|
            0 <= i < capabilities.len() ==> !capability::is_word(
                (#[trigger] capabilities[i])@,
                "UIDONLY"@,
            ) && !capability::limit_marker(capabilities[i]@),
    ensures
        capability::classified(capabilities) == Ok::<CapabilityRoute, Failure>(
            CapabilityRoute::Legacy,
        ),
        !capability::some_limited(capabilities),
{
    lemma_none_is_kept(
        capabilities,
        |value: String| capability::is_word(value@, "UIDONLY"@),
    );
    lemma_none_is_kept(capabilities, |value: String| capability::limit_marker(value@));
}

/// An incomplete or ambiguous set is refused: UIDONLY or a limit without the others, or one
/// of them twice.
pub proof fn law_ambiguous_set_is_refused(capabilities: Seq<String>, i: int, j: int)
    requires
        0 <= i <= j < capabilities.len(),
        ({
            let uidonly = |k: int| capability::is_word(capabilities[k]@, "UIDONLY"@);
            let partial = |k: int| capability::is_word(capabilities[k]@, "PARTIAL"@);
            let limit = |k: int| capability::limit_marker(capabilities[k]@);
            let no_uidonly = forall|k: int|
                0 <= k < capabilities.len() ==> !capability::is_word(
                    (#[trigger] capabilities[k])@,
                    "UIDONLY"@,
                );
            let no_partial = forall|k: int|
                0 <= k < capabilities.len() ==> !capability::is_word(
                    (#[trigger] capabilities[k])@,
                    "PARTIAL"@,
                );
            let no_limit = forall|k: int|
                0 <= k < capabilities.len() ==> !capability::limit_marker(
                    (#[trigger] capabilities[k])@,
                );
            ||| uidonly(i) && (no_partial || no_limit)
            ||| limit(i) && (no_uidonly || no_partial)
            ||| i < j && uidonly(i) && uidonly(j)
            ||| i < j && limit(i) && limit(j)
            ||| i < j && partial(i) && partial(j) && (!no_uidonly || !no_limit)
        }),
    ensures
        capability::classified(capabilities) is Err,
        capability::classified(capabilities)->Err_0.code == ErrorCode::Incompatible,
{
    let uidonly = |value: String| capability::is_word(value@, "UIDONLY"@);
    let partial = |value: String| capability::is_word(value@, "PARTIAL"@);
    let limit = |value: String| capability::limit_marker(value@);
    if uidonly(capabilities[i]) {
        lemma_kept_is_counted(capabilities, uidonly, i, i);
        if uidonly(capabilities[j]) {
            lemma_kept_is_counted(capabilities, uidonly, i, j);
        }
    }
    if limit(capabilities[i]) {
        lemma_kept_is_counted(capabilities, limit, i, i);
        if limit(capabilities[j]) {
            lemma_kept_is_counted(capabilities, limit, i, j);
        }
    }
    if partial(capabilities[i]) && partial(capabilities[j]) {
        lemma_kept_is_counted(capabilities, partial, i, j);
    }
    if forall|k: int| 0 <= k < capabilities.len() ==> !uidonly(#[trigger] capabilities[k]) {
        lemma_none_is_kept(capabilities, uidonly);
    } else {
        let k = choose|k: int| 0 <= k < capabilities.len() && uidonly(#[trigger] capabilities[k]);
        lemma_kept_is_counted(capabilities, uidonly, k, k);
    }
    if forall|k: int| 0 <= k < capabilities.len() ==> !partial(#[trigger] capabilities[k]) {
        lemma_none_is_kept(capabilities, partial);
    }
    if forall|k: int| 0 <= k < capabilities.len() ==> !limit(#[trigger] capabilities[k]) {
        lemma_none_is_kept(capabilities, limit);
    } else {
        let k = choose|k: int| 0 <= k < capabilities.len() && limit(#[trigger] capabilities[k]);
        lemma_kept_is_counted(capabilities, limit, k, k);
    }
}

/// A limit that is listed reads as its number, with white space around it and in whatever
/// case; zero, and what is too large, is none.
pub proof fn law_listed_limit_is_its_number(
    before: Seq<char>,
    name: Seq<char>,
    n: nat,
    after: Seq<char>,
)
    requires
        text::lowercase(name) == text::lowercase("MESSAGELIMIT="@),
        forall|i: int| 0 <= i < before.len() ==> text::white(#[trigger] before[i]),
        forall|i: int| 0 <= i < after.len() ==> text::white(#[trigger] after[i]),
    ensures
        ({
            let listed = before + (name + text::numeral(n)) + after;
            &&& capability::limit_marker(listed)
            &&& 0 < n <= u32::MAX ==> capability::listed_limit(listed) == Some(n as u32)
            &&& n == 0 || n > u32::MAX ==> capability::listed_limit(listed) is None
        }),
{
    let inner = name + text::numeral(n);
    text_laws::law_numerals_read_back(n);
    text_laws::law_words_agree_in_small_letters(name, "MESSAGELIMIT="@);
    reveal_strlit("MESSAGELIMIT=");
    reveal_strlit("MESSAGELIMIT");
    assert(text::same_word(name, "MESSAGELIMIT="@));
    assert(name.len() == 13);
    assert(text::small(name[0] as int) == text::small("MESSAGELIMIT="@[0] as int));
    assert(inner[0] == name[0]);
    let shown = text::numeral(n);
    assert(inner[inner.len() - 1] == shown[shown.len() - 1]);
    text_laws::law_trimming_keeps_what_is_inside(before, inner, after);
    assert(inner.take(13) =~= name);
    assert(inner.skip(13) =~= shown);
    assert(inner.take(12) =~= name.take(12));
    assert(text::same_word(name.take(12), "MESSAGELIMIT"@)) by {
        assert forall|i: int| 0 <= i < 12 implies text::small(#[trigger] name.take(12)[i] as int)
            == text::small("MESSAGELIMIT"@[i] as int) by {
            assert(text::small(name[i] as int) == text::small("MESSAGELIMIT="@[i] as int));
        }
    }
}

/// A listed capability is a word in whatever case and with white space around it.
pub proof fn law_listed_words_may_be_spaced(
    before: Seq<char>,
    word: Seq<char>,
    after: Seq<char>,
    expected: Seq<char>,
)
    requires
        word.len() > 0 ==> !text::white(word[0]) && !text::white(word[word.len() - 1]),
        forall|i: int| 0 <= i < before.len() ==> text::white(#[trigger] before[i]),
        forall|i: int| 0 <= i < after.len() ==> text::white(#[trigger] after[i]),
    ensures
        capability::is_word(before + word + after, expected) <==> text::lowercase(word)
            == text::lowercase(expected),
{
    text_laws::law_trimming_keeps_what_is_inside(before, word, after);
    text_laws::law_words_agree_in_small_letters(word, expected);
}

/// The text of a capability: its atom, or `AUTH=` and the mechanism; every server speaks
/// IMAP4rev1 by that name.
pub proof fn law_capabilities_have_their_text(capability: Capability)
    ensures
        capability is Imap4rev1 ==> capability::capability_text(capability) == "IMAP4rev1"@,
        capability matches Capability::Atom(atom) ==> capability::capability_text(capability)
            == atom@,
        capability matches Capability::Auth(mechanism) ==> capability::capability_text(capability)
            == "AUTH="@ + mechanism@,
{
}

/// An atom whose name, up to its first equals sign, is another one names no limit and
/// announces none; without an equals sign the name is the whole atom, and announces none
/// either.
pub proof fn law_other_names_announce_no_limit(atom: String, name: Seq<char>, value: Seq<char>)
    requires
        !name.contains('='),
    ensures
        atom@ == name + seq!['='] + value && text::lowercase(name) != text::lowercase(
            "MESSAGELIMIT"@,
        ) ==> !capability::names_limit(Capability::Atom(atom)) && capability::limit_of(
            Capability::Atom(atom),
        ) is None,
        atom@ == name ==> capability::limit_of(Capability::Atom(atom)) is None,
        atom@ == name ==> (capability::names_limit(Capability::Atom(atom)) <==> text::lowercase(
            name,
        ) == text::lowercase("MESSAGELIMIT"@)),
{
    lemma_equals_sign(name, value);
    text_laws::law_words_agree_in_small_letters(name, "MESSAGELIMIT"@);
    let at = name.len() as int;
    assert((name + seq!['='] + value).take(at) =~= name);
    assert(name.take(at) =~= name);
}

/// What is listed counts as a limit just where its first twelve letters are the name of
/// one, white space before and behind aside; without an equals sign behind them it has no
/// number.
pub proof fn law_limits_are_listed_by_their_name(
    before: Seq<char>,
    start: Seq<char>,
    rest: Seq<char>,
    after: Seq<char>,
)
    requires
        start.len() == 12,
        !text::white(start[0]),
        !text::white(start[11]),
        rest.len() > 0 ==> !text::white(rest[rest.len() - 1]),
        forall|i: int| 0 <= i < before.len() ==> text::white(#[trigger] before[i]),
        forall|i: int| 0 <= i < after.len() ==> text::white(#[trigger] after[i]),
    ensures
        ({
            let listed = before + (start + rest) + after;
            &&& capability::limit_marker(listed) <==> text::lowercase(start) == text::lowercase(
                "MESSAGELIMIT"@,
            )
            &&& rest.len() == 0 || rest[0] != '=' ==> capability::listed_limit(listed) is None
        }),
{
    let inner = start + rest;
    assert(inner[0] == start[0]);
    if rest.len() > 0 {
        assert(inner[inner.len() - 1] == rest[rest.len() - 1]);
    } else {
        assert(inner[inner.len() - 1] == start[11]);
    }
    text_laws::law_trimming_keeps_what_is_inside(before, inner, after);
    assert(inner.take(12) =~= start);
    text_laws::law_words_agree_in_small_letters(start, "MESSAGELIMIT"@);
    if (rest.len() == 0 || rest[0] != '=') && inner.len() >= 13 {
        reveal_strlit("MESSAGELIMIT=");
        assert(inner.take(13)[12] == rest[0]);
        if text::same_word(inner.take(13), "MESSAGELIMIT="@) {
            assert(text::small(inner.take(13)[12] as int) == text::small(
                "MESSAGELIMIT="@[12] as int,
            ));
        }
    }
}

/// A server is remembered as limited just where the account remembers that it listed
/// UIDONLY or a limit.
pub proof fn law_limited_servers_are_remembered(
    account: crate::account::AccountModel,
    capabilities: Seq<String>,
    i: int,
)
    ensures
        account.capabilities is None ==> !capability::remembered_limited(account),
        account.capabilities matches Some(list) ==> (list@ == capabilities ==> (
        capability::remembered_limited(account) <==> exists|j: int|
            0 <= j < capabilities.len() && (capability::is_word(
                (#[trigger] capabilities[j])@,
                "UIDONLY"@,
            ) || capability::limit_marker(capabilities[j]@)))),
{
    if capability::some_limited(capabilities) {
        let j = choose|j: int|
            0 <= j < capabilities.len() && capability::limited((#[trigger] capabilities[j])@);
        assert(capability::is_word(capabilities[j]@, "UIDONLY"@) || capability::limit_marker(
            capabilities[j]@,
        ));
    }
    if exists|j: int|
        0 <= j < capabilities.len() && (capability::is_word(
            (#[trigger] capabilities[j])@,
            "UIDONLY"@,
        ) || capability::limit_marker(capabilities[j]@)) {
        let j = choose|j: int|
            0 <= j < capabilities.len() && (capability::is_word(
                (#[trigger] capabilities[j])@,
                "UIDONLY"@,
            ) || capability::limit_marker(capabilities[j]@));
        assert(capability::limited(capabilities[j]@));
    }
}

/// A client is asked for its name by an atom for it, in capitals or in small letters, and by
/// no other capability.
pub proof fn law_name_is_asked_for_by_its_atom(capability: Capability)
    ensures
        connection::identifies(capability) <==> capability is Atom && (capability->Atom_0@ == "ID"@
            || capability->Atom_0@ == "id"@),
{
}

} // verus!
