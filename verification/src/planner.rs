//! The redaction planner: from a transcript and the disclosure policy to the
//! set of byte offsets that is revealed.

use crate::bytes::{
    eq_ignore_case, in_class, lemma_run_end, run_end, skip_run, ByteClass, COLON, QUOTE,
};
use crate::error::{ParseError, SessionError};
use crate::http::{
    first_header, header_in, header_written, lemma_first_header, lemma_first_request,
    lemma_request_at_bounds, lemma_request_at_written, lemma_response_bounds, parse_requests,
    parse_response, request_at, request_views, requests_from, response_of,
};
use crate::json::{
    field_in, fields_in, json_fields, lemma_json_fields_in, lemma_lookup, lookup, parse_json,
    separated, shift_field, shift_fields, FieldSpans, JsonFieldView,
};
use crate::policy::{
    DisclosurePolicy, FieldConstraint, FieldRuleView, HeaderConstraint, PolicyView,
};
use crate::range_set::{
    canonical, covered, lemma_canonical_unique, range_set_from, range_set_spans, revealed_offsets,
};
use crate::span::{span, Span};
use rangeset::set::RangeSet;
use vstd::prelude::*;
use vstd::slice::slice_subrange;

verus! {

/// The part of the header value `value` that `constraint` hides, if the
/// value has the form that the constraint asks for.
pub open spec fn secret_span(s: Seq<u8>, value: Span, constraint: HeaderConstraint) -> Option<
    Span,
> {
    match constraint {
        HeaderConstraint::HideValue => Some(value),
        HeaderConstraint::HideCredentials => {
            let scheme_end = run_end(s, ByteClass::Token, value.start as int, value.end as int);
            let start = run_end(s, ByteClass::Blank, scheme_end, value.end as int);
            if value.start < scheme_end && scheme_end < start && start < value.end {
                Some(span(start, value.end as int))
            } else {
                None
            }
        },
    }
}

/// `secret` is what follows the scheme in `value`: the value begins with a
/// scheme in token bytes, then come blanks, then the secret, which is not
/// empty, begins with no blank and ends the value.
pub open spec fn follows_scheme(s: Seq<u8>, value: Span, secret: Span) -> bool {
    exists|scheme_end: int|
        {
            &&& value.start < scheme_end < secret.start < secret.end == value.end
            &&& in_class(ByteClass::Token, #[trigger] s[scheme_end - 1])
            &&& forall|i: int|
                value.start <= i < scheme_end ==> in_class(ByteClass::Token, #[trigger] s[i])
            &&& forall|i: int|
                scheme_end <= i < secret.start ==> in_class(ByteClass::Blank, #[trigger] s[i])
            &&& !in_class(ByteClass::Blank, s[secret.start as int])
        }
}

/// The secret of the sent transcript `s`: what the policy hides of the
/// secret-bearing header of the first request.
///
/// There is none, and the policy cannot be met, if `s` holds no request, if
/// the first request lacks the header, or if the header's value has not the
/// form that the constraint asks for.
pub open spec fn sent_secret(s: Seq<u8>, policy: PolicyView) -> Result<Span, SessionError> {
    match requests_from(s, 0) {
        None => Err(SessionError::Parse(ParseError::MalformedHttp)),
        Some(requests) => if requests.len() == 0 {
            Err(SessionError::PlanUnsatisfiable)
        } else {
            match first_header(s, requests[0].headers, policy.secret.name, 0) {
                None => Err(SessionError::PlanUnsatisfiable),
                Some(i) => match secret_span(
                    s,
                    requests[0].headers[i].value,
                    policy.secret.constraint,
                ) {
                    None => Err(SessionError::PlanUnsatisfiable),
                    Some(secret) => Ok(secret),
                },
            }
        },
    }
}

/// Every offset below `len` but those of `hidden`.
pub open spec fn all_but(len: int, hidden: Span) -> Set<int> {
    Set::new(|i: int| 0 <= i < len && !hidden.indices().contains(i))
}

/// `result` is the plan for the sent transcript `s`: the set that reveals
/// all of `s` but the secret, in ranges that ascend with gaps between them, or
/// the reason why there is no such set.
pub open spec fn is_sent_plan(
    s: Seq<u8>,
    policy: PolicyView,
    result: Result<RangeSet<usize>, SessionError>,
) -> bool {
    match result {
        Ok(set) => match sent_secret(s, policy) {
            Ok(secret) => canonical(range_set_spans(set)) && revealed_offsets(set) == all_but(
                s.len() as int,
                secret,
            ),
            Err(_) => false,
        },
        Err(e) => sent_secret(s, policy) == Err::<Span, SessionError>(e),
    }
}

/// What `constraint` reveals of the field at `spans`.
pub open spec fn reveal_span(spans: FieldSpans, constraint: FieldConstraint) -> Span {
    let quote: int = if spans.quoted {
        1
    } else {
        0
    };
    match constraint {
        FieldConstraint::RevealKeyAndValue => span(spans.key.start - 1, spans.value.end + quote),
        FieldConstraint::RevealValue => span(spans.value.start - quote, spans.value.end + quote),
    }
}

/// The scalar fields of the body of the response `s`, located in `s`.
pub open spec fn received_fields(s: Seq<u8>) -> Result<Seq<JsonFieldView>, SessionError> {
    match response_of(s) {
        None => Err(SessionError::Parse(ParseError::MalformedHttp)),
        Some(response) => match json_fields(response.body.of(s)) {
            None => Err(SessionError::Parse(ParseError::MalformedJson)),
            Some(fields) => Ok(shift_fields(fields, response.body.start as int)),
        },
    }
}

/// Every rule names a field that is there.
pub open spec fn all_resolve(fields: Seq<JsonFieldView>, rules: Seq<FieldRuleView>) -> bool {
    forall|i: int| 0 <= i < rules.len() ==> lookup(fields, (#[trigger] rules[i]).path, 0) is Some
}

/// What the rules reveal, rule by rule.
pub open spec fn reveal_spans(fields: Seq<JsonFieldView>, rules: Seq<FieldRuleView>) -> Seq<Span> {
    Seq::new(
        rules.len(),
        |i: int| reveal_span(lookup(fields, rules[i].path, 0).unwrap(), rules[i].constraint),
    )
}

/// The spans of the received transcript `s` that the policy reveals, one for
/// each rule. There are none, and the policy cannot be met, if one of its
/// rules names a field that the body lacks.
pub open spec fn received_spans(s: Seq<u8>, policy: PolicyView) -> Result<Seq<Span>, SessionError> {
    match received_fields(s) {
        Err(e) => Err(e),
        Ok(fields) => if all_resolve(fields, policy.fields) {
            Ok(reveal_spans(fields, policy.fields))
        } else {
            Err(SessionError::PlanUnsatisfiable)
        },
    }
}

/// `result` is the plan for the received transcript `s`: the set that
/// reveals what the rules name and nothing else, in ranges that ascend with
/// gaps between them, or the reason why there is no such set.
pub open spec fn is_received_plan(
    s: Seq<u8>,
    policy: PolicyView,
    result: Result<RangeSet<usize>, SessionError>,
) -> bool {
    match result {
        Ok(set) => match received_spans(s, policy) {
            Ok(spans) => canonical(range_set_spans(set)) && revealed_offsets(set) == covered(spans),
            Err(_) => false,
        },
        Err(e) => received_spans(s, policy) == Err::<Seq<Span>, SessionError>(e),
    }
}

fn locate_secret(bytes: &[u8], value: Span, constraint: HeaderConstraint) -> (r: Option<Span>)
    requires
        value.start <= value.end <= bytes.len(),
    ensures
        r == secret_span(bytes@, value, constraint),
        r matches Some(secret) ==> value.start <= secret.start <= secret.end == value.end,
{
    match constraint {
        HeaderConstraint::HideValue => Some(value),
        HeaderConstraint::HideCredentials => {
            let scheme_end: usize = skip_run(bytes, ByteClass::Token, value.start, value.end);
            let start: usize = skip_run(bytes, ByteClass::Blank, scheme_end, value.end);
            if value.start < scheme_end && scheme_end < start && start < value.end {
                Some(Span { start, end: value.end })
            } else {
                None
            }
        },
    }
}

/// Plans the disclosure of the sent transcript: everything is revealed but
/// the secret of the first request.
pub fn plan_sent(sent: &[u8], policy: &DisclosurePolicy) -> (r: Result<
    RangeSet<usize>,
    SessionError,
>)
    ensures
        is_sent_plan(sent@, policy@, r),
{
    let len: usize = sent.len();
    let requests = match parse_requests(sent) {
        Err(e) => {
            return Err(SessionError::Parse(e));
        },
        Ok(requests) => requests,
    };
    if requests.len() == 0 {
        return Err(SessionError::PlanUnsatisfiable);
    }
    let first = &requests[0];
    proof {
        assert(request_views(requests@)[0] == first@);
        lemma_first_request(sent@);
        lemma_request_at_bounds(sent@, 0);
    }
    let header = match first.header(sent, policy.secret.name.as_str().as_bytes()) {
        Err(_) => {
            return Err(SessionError::PlanUnsatisfiable);
        },
        Ok(header) => header,
    };
    let value = header.value;
    proof {
        lemma_first_header(sent@, first@.headers, policy@.secret.name, 0);
        let index = first_header(sent@, first@.headers, policy@.secret.name, 0).unwrap();
        assert(header_in(first@.headers[index], 0, first.body.start as int));
    }
    let secret = match locate_secret(sent, value, policy.secret.constraint) {
        None => {
            return Err(SessionError::PlanUnsatisfiable);
        },
        Some(secret) => secret,
    };
    let mut spans: Vec<Span> = Vec::new();
    spans.push(Span { start: 0, end: secret.start });
    spans.push(Span { start: secret.end, end: len });
    let set = range_set_from(&spans);
    proof {
        assert forall|i: int| covered(spans@).contains(i) == all_but(
            sent@.len() as int,
            secret,
        ).contains(i) by {
            if 0 <= i < secret.start {
                assert(spans@[0].indices().contains(i));
            }
            if secret.end <= i < sent@.len() {
                assert(spans@[1].indices().contains(i));
            }
        }
        assert(covered(spans@) =~= all_but(sent@.len() as int, secret));
    }
    Ok(set)
}

/// Plans the disclosure of the received transcript: of the response body,
/// what the rules of the policy name is revealed; everything else stays
/// hidden.
pub fn plan_received(received: &[u8], policy: &DisclosurePolicy) -> (r: Result<
    RangeSet<usize>,
    SessionError,
>)
    ensures
        is_received_plan(received@, policy@, r),
{
    let len: usize = received.len();
    let response = match parse_response(received) {
        Err(e) => {
            return Err(SessionError::Parse(e));
        },
        Ok(response) => response,
    };
    proof {
        lemma_response_bounds(received@);
    }
    let body = response.body;
    let document = match parse_json(slice_subrange(received, body.start, body.end), body.start) {
        Err(e) => {
            return Err(SessionError::Parse(e));
        },
        Ok(document) => document,
    };
    let ghost text = body.of(received@);
    let ghost fields = document@;
    let ghost rules = policy@.fields;
    proof {
        lemma_json_fields_in(text);
        assert(received_fields(received@) == Ok::<Seq<JsonFieldView>, SessionError>(fields));
    }
    let mut spans: Vec<Span> = Vec::new();
    let mut i: usize = 0;
    while i < policy.fields.len()
        invariant
            0 <= i <= policy.fields.len(),
            rules == policy@.fields,
            fields == document@,
            text == body.of(received@),
            body.start <= body.end <= received.len(),
            received_fields(received@) == Ok::<Seq<JsonFieldView>, SessionError>(fields),
            json_fields(text) is Some,
            fields == shift_fields(json_fields(text).unwrap(), body.start as int),
            fields_in(text, json_fields(text).unwrap(), 0, text.len() as int),
            spans@.len() == i,
            forall|k: int| 0 <= k < i ==> lookup(fields, (#[trigger] rules[k]).path, 0) is Some,
            forall|k: int|
                0 <= k < i ==> #[trigger] spans@[k] == reveal_span(
                    lookup(fields, rules[k].path, 0).unwrap(),
                    rules[k].constraint,
                ),
        decreases policy.fields.len() - i,
    {
        let rule = &policy.fields[i];
        assert(rules[i as int] == rule@);
        let found = match document.get(rule.path.as_str().as_bytes()) {
            Err(_) => {
                assert(!all_resolve(fields, rules));
                return Err(SessionError::PlanUnsatisfiable);
            },
            Ok(found) => found,
        };
        proof {
            lemma_lookup(fields, rule@.path, 0);
            let k = choose|k: int|
                0 <= k < fields.len() && (#[trigger] fields[k]).path == rule@.path
                    && fields[k].spans == found;
            assert(field_in(text, json_fields(text).unwrap()[k], 0, text.len() as int));
        }
        let quote: usize = if found.quoted {
            1
        } else {
            0
        };
        let revealed = match rule.constraint {
            FieldConstraint::RevealKeyAndValue => Span {
                start: found.key.start - 1,
                end: found.value.end + quote,
            },
            FieldConstraint::RevealValue => Span {
                start: found.value.start - quote,
                end: found.value.end + quote,
            },
        };
        spans.push(revealed);
        i = i + 1;
    }
    assert(all_resolve(fields, rules));
    assert(spans@ =~= reveal_spans(fields, rules));
    Ok(range_set_from(&spans))
}

/// The fields of a response body are written in the transcript, behind the
/// header fields: each name between its quotes, each path ending in the name.
pub proof fn lemma_received_fields_in(s: Seq<u8>)
    requires
        s.len() <= usize::MAX,
    ensures
        match received_fields(s) {
            Ok(fields) => response_of(s) is Some && fields_in(
                s,
                fields,
                response_of(s).unwrap().body.start as int,
                s.len() as int,
            ),
            Err(_) => true,
        },
{
    lemma_response_bounds(s);
    match response_of(s) {
        None => {},
        Some(response) => {
            let body = response.body;
            let text = body.of(s);
            let base = body.start as int;
            lemma_json_fields_in(text);
            match json_fields(text) {
                None => {},
                Some(found) => {
                    let fields = shift_fields(found, base);
                    assert forall|i: int| 0 <= i < fields.len() implies field_in(
                        s,
                        #[trigger] fields[i],
                        base,
                        s.len() as int,
                    ) by {
                        let f = found[i];
                        assert(field_in(text, f, 0, text.len() as int));
                        assert(fields[i] == shift_field(f, base));
                        assert(fields[i].spans.key.of(s) =~= f.spans.key.of(text));
                        assert(s[fields[i].spans.key.start - 1] == text[f.spans.key.start - 1]);
                        assert(s[fields[i].spans.key.end as int] == text[f.spans.key.end as int]);
                        if f.spans.quoted {
                            assert(s[fields[i].spans.value.start - 1] == text[f.spans.value.start
                                - 1]);
                            assert(s[fields[i].spans.value.end as int]
                                == text[f.spans.value.end as int]);
                        }
                        assert(separated(s, fields[i])) by {
                            let quote: int = if f.spans.quoted {
                                1
                            } else {
                                0
                            };
                            let colon = choose|colon: int|
                                f.spans.key.end + 1 <= colon < f.spans.value.start - quote
                                    && #[trigger] text[colon] == COLON && forall|k: int|
                                    f.spans.key.end + 1 <= k < f.spans.value.start - quote && k
                                        != colon ==> in_class(
                                        ByteClass::JsonSpace,
                                        #[trigger] text[k],
                                    );
                            assert(s[colon + base] == text[colon]);
                            assert forall|k: int|
                                fields[i].spans.key.end + 1 <= k < fields[i].spans.value.start
                                    - quote && k != colon + base implies in_class(
                                ByteClass::JsonSpace,
                                #[trigger] s[k],
                            ) by {
                                assert(s[k] == text[k - base]);
                            }
                        }
                    }
                },
            }
        },
    }
}

/// Every field that the policy names is revealed verbatim. For each rule the
/// plan reveals the value of its field, a string with both quotes, and under
/// `RevealKeyAndValue` also the name with both quotes and what stands
/// between name and value, which is a colon and whitespace; the name is the
/// last part of the rule's path.
pub proof fn lemma_received_plan_reveals_fields(
    s: Seq<u8>,
    policy: PolicyView,
    set: RangeSet<usize>,
    i: int,
)
    requires
        s.len() <= usize::MAX,
        is_received_plan(s, policy, Ok(set)),
        0 <= i < policy.fields.len(),
    ensures
        received_fields(s) is Ok,
        lookup(received_fields(s).unwrap(), policy.fields[i].path, 0) is Some,
        ({
            let rule = policy.fields[i];
            let found = lookup(received_fields(s).unwrap(), rule.path, 0).unwrap();
            let quote: int = if found.quoted {
                1
            } else {
                0
            };
            &&& 0 < found.key.start <= found.key.end < found.value.start - quote
            &&& found.value.start <= found.value.end
            &&& found.value.end + quote <= s.len()
            &&& forall|k: int|
                found.value.start - quote <= k < found.value.end + quote ==> revealed_offsets(
                    set,
                ).contains(k)
            &&& rule.constraint == FieldConstraint::RevealKeyAndValue ==> forall|k: int|
                found.key.start - 1 <= k < found.value.end + quote ==> revealed_offsets(
                    set,
                ).contains(k)
            &&& s[found.key.start - 1] == QUOTE
            &&& s[found.key.end as int] == QUOTE
            &&& separated(s, JsonFieldView { path: rule.path, spans: found })
            &&& rule.path.len() >= found.key.of(s).len()
            &&& rule.path.subrange(rule.path.len() - found.key.of(s).len(), rule.path.len() as int)
                == found.key.of(s)
        }),
{
    lemma_received_fields_in(s);
    let fields = received_fields(s).unwrap();
    let rules = policy.fields;
    let rule = rules[i];
    let base = response_of(s).unwrap().body.start as int;
    assert(all_resolve(fields, rules));
    lemma_lookup(fields, rule.path, 0);
    let found = lookup(fields, rule.path, 0).unwrap();
    let j = choose|j: int|
        0 <= j < fields.len() && (#[trigger] fields[j]).path == rule.path && fields[j].spans
            == found;
    assert(field_in(s, fields[j], base, s.len() as int));
    let spans = reveal_spans(fields, rules);
    let quote: int = if found.quoted {
        1
    } else {
        0
    };
    assert(spans[i] == reveal_span(found, rule.constraint));
    assert forall|k: int| found.value.start - quote <= k < found.value.end + quote implies covered(
        spans,
    ).contains(k) by {
        assert(spans[i].indices().contains(k));
    }
    if rule.constraint == FieldConstraint::RevealKeyAndValue {
        assert forall|k: int| found.key.start - 1 <= k < found.value.end + quote implies covered(
            spans,
        ).contains(k) by {
            assert(spans[i].indices().contains(k));
        }
    }
}

/// Nothing but what the rules name is revealed: every revealed offset lies in
/// the span of one of the rules, inside the response body.
pub proof fn lemma_received_plan_reveals_nothing_else(
    s: Seq<u8>,
    policy: PolicyView,
    set: RangeSet<usize>,
    k: int,
)
    requires
        s.len() <= usize::MAX,
        is_received_plan(s, policy, Ok(set)),
        revealed_offsets(set).contains(k),
    ensures
        received_fields(s) is Ok,
        response_of(s).unwrap().body.start <= k < s.len(),
        exists|i: int|
            0 <= i < policy.fields.len() && reveal_span(
                lookup(received_fields(s).unwrap(), (#[trigger] policy.fields[i]).path, 0).unwrap(),
                policy.fields[i].constraint,
            ).indices().contains(k),
{
    lemma_received_fields_in(s);
    let fields = received_fields(s).unwrap();
    let rules = policy.fields;
    let base = response_of(s).unwrap().body.start as int;
    let spans = reveal_spans(fields, rules);
    let i = choose|i: int| 0 <= i < spans.len() && (#[trigger] spans[i]).indices().contains(k);
    assert(all_resolve(fields, rules));
    let rule = rules[i];
    lemma_lookup(fields, rule.path, 0);
    let found = lookup(fields, rule.path, 0).unwrap();
    let j = choose|j: int|
        0 <= j < fields.len() && (#[trigger] fields[j]).path == rule.path && fields[j].spans
            == found;
    assert(field_in(s, fields[j], base, s.len() as int));
    assert(spans[i] == reveal_span(found, rule.constraint));
}

/// The sent plan hides the secret and nothing else: no offset of the secret
/// is revealed, and every other offset of the transcript is. The secret
/// lies in the value of the first header field of the first request that has
/// the policy's name, and ends with it; under `HideValue` it is that whole
/// value, which is what the field's line holds behind the colon, without the
/// blanks around it.
pub proof fn lemma_sent_plan_hides_secret(
    s: Seq<u8>,
    policy: PolicyView,
    set: RangeSet<usize>,
    k: int,
)
    requires
        s.len() <= usize::MAX,
        is_sent_plan(s, policy, Ok(set)),
    ensures
        sent_secret(s, policy) is Ok,
        request_at(s, 0) is Some,
        first_header(s, request_at(s, 0).unwrap().headers, policy.secret.name, 0) is Some,
        ({
            let secret = sent_secret(s, policy).unwrap();
            let headers = request_at(s, 0).unwrap().headers;
            let value = headers[first_header(s, headers, policy.secret.name, 0).unwrap()].value;
            &&& eq_ignore_case(
                headers[first_header(s, headers, policy.secret.name, 0).unwrap()].name.of(s),
                policy.secret.name,
            )
            &&& header_written(
                s,
                headers[first_header(s, headers, policy.secret.name, 0).unwrap()],
            )
            &&& value.start <= secret.start <= secret.end == value.end <= s.len()
            &&& policy.secret.constraint == HeaderConstraint::HideValue ==> secret == value
            &&& policy.secret.constraint == HeaderConstraint::HideCredentials ==> follows_scheme(
                s,
                value,
                secret,
            )
            &&& secret.indices().contains(k) ==> !revealed_offsets(set).contains(k)
            &&& 0 <= k < s.len() && !secret.indices().contains(k) ==> revealed_offsets(
                set,
            ).contains(k)
            &&& revealed_offsets(set).contains(k) ==> 0 <= k < s.len()
        }),
{
    lemma_first_request(s);
    lemma_request_at_bounds(s, 0);
    lemma_request_at_written(s, 0);
    let request = request_at(s, 0).unwrap();
    let headers = request.headers;
    lemma_first_header(s, headers, policy.secret.name, 0);
    let index = first_header(s, headers, policy.secret.name, 0).unwrap();
    let value = headers[index].value;
    assert(header_in(headers[index], 0, request.body.start as int));
    if policy.secret.constraint == HeaderConstraint::HideCredentials {
        let scheme_end = run_end(s, ByteClass::Token, value.start as int, value.end as int);
        lemma_run_end(s, ByteClass::Token, value.start as int, value.end as int);
        lemma_run_end(s, ByteClass::Blank, scheme_end, value.end as int);
        assert(in_class(ByteClass::Token, s[scheme_end - 1]));
    }
}

/// The ranges that reveal all of `len` bytes but `hidden`: what stands
/// before it and what stands behind it, as far as there is anything.
pub open spec fn spans_around(len: int, hidden: Span) -> Seq<Span> {
    if hidden.start >= hidden.end {
        seq![span(0, len)]
    } else if hidden.end < len {
        seq![span(0, hidden.start as int), span(hidden.end as int, len)]
    } else {
        seq![span(0, hidden.start as int)]
    }
}

/// The sent plan holds the range before the secret and the range behind it:
/// two ranges, or one where nothing follows the secret or the secret is
/// empty.
pub proof fn lemma_sent_plan_spans(s: Seq<u8>, policy: PolicyView, set: RangeSet<usize>)
    requires
        s.len() <= usize::MAX,
        is_sent_plan(s, policy, Ok(set)),
    ensures
        sent_secret(s, policy) is Ok,
        range_set_spans(set) == spans_around(s.len() as int, sent_secret(s, policy).unwrap()),
{
    lemma_sent_plan_hides_secret(s, policy, set, 0);
    let secret = sent_secret(s, policy).unwrap();
    let len = s.len() as int;
    let around = spans_around(len, secret);
    let request = request_at(s, 0).unwrap();
    lemma_request_at_bounds(s, 0);
    lemma_first_header(s, request.headers, policy.secret.name, 0);
    let index = first_header(s, request.headers, policy.secret.name, 0).unwrap();
    assert(header_in(request.headers[index], 0, request.body.start as int));
    assert(0 < secret.start);
    assert forall|i: int| covered(around).contains(i) == all_but(len, secret).contains(i) by {
        if 0 <= i < len && !secret.indices().contains(i) {
            if secret.start >= secret.end || i < secret.start {
                assert(around[0].indices().contains(i));
            } else {
                assert(around[1].indices().contains(i));
            }
        }
    }
    assert(covered(around) =~= all_but(len, secret));
    lemma_canonical_unique(range_set_spans(set), around);
}

/// Planning is a function of transcript and policy: two plans for the same
/// sent transcript under the same policy hold the same ranges, or fail for
/// the same reason.
pub proof fn lemma_sent_plan_unique(
    s: Seq<u8>,
    policy: PolicyView,
    a: Result<RangeSet<usize>, SessionError>,
    b: Result<RangeSet<usize>, SessionError>,
)
    requires
        is_sent_plan(s, policy, a),
        is_sent_plan(s, policy, b),
    ensures
        match (a, b) {
            (Ok(x), Ok(y)) => range_set_spans(x) == range_set_spans(y),
            (Err(e), Err(f)) => e == f,
            _ => false,
        },
{
    match (a, b) {
        (Ok(x), Ok(y)) => {
            lemma_canonical_unique(range_set_spans(x), range_set_spans(y));
        },
        _ => {},
    }
}

/// Planning is a function of transcript and policy: two plans for the same
/// received transcript under the same policy hold the same ranges, or fail
/// for the same reason.
pub proof fn lemma_received_plan_unique(
    s: Seq<u8>,
    policy: PolicyView,
    a: Result<RangeSet<usize>, SessionError>,
    b: Result<RangeSet<usize>, SessionError>,
)
    requires
        is_received_plan(s, policy, a),
        is_received_plan(s, policy, b),
    ensures
        match (a, b) {
            (Ok(x), Ok(y)) => range_set_spans(x) == range_set_spans(y),
            (Err(e), Err(f)) => e == f,
            _ => false,
        },
{
    match (a, b) {
        (Ok(x), Ok(y)) => {
            lemma_canonical_unique(range_set_spans(x), range_set_spans(y));
        },
        _ => {},
    }
}

/// A plan is owed whenever the policy can be met: for a well-formed response
/// whose body holds every field that the rules name, and for a sent
/// transcript whose first request carries the secret as the policy asks.
pub proof fn lemma_plan_is_owed(
    sent: Seq<u8>,
    received: Seq<u8>,
    policy: PolicyView,
    sent_plan: Result<RangeSet<usize>, SessionError>,
    received_plan: Result<RangeSet<usize>, SessionError>,
)
    requires
        is_sent_plan(sent, policy, sent_plan),
        is_received_plan(received, policy, received_plan),
    ensures
        sent_secret(sent, policy) is Ok ==> sent_plan is Ok,
        received_fields(received) matches Ok(fields) && all_resolve(fields, policy.fields)
            ==> received_plan is Ok,
{
}

/// A rule that names a field which the response body lacks makes the plan
/// fail as unsatisfiable: no set is handed out, whatever the other rules
/// name.
pub proof fn lemma_absent_field_fails(
    s: Seq<u8>,
    policy: PolicyView,
    result: Result<RangeSet<usize>, SessionError>,
    i: int,
)
    requires
        is_received_plan(s, policy, result),
        received_fields(s) is Ok,
        0 <= i < policy.fields.len(),
        lookup(received_fields(s).unwrap(), policy.fields[i].path, 0) is None,
    ensures
        result == Err::<RangeSet<usize>, SessionError>(SessionError::PlanUnsatisfiable),
{
    assert(!all_resolve(received_fields(s).unwrap(), policy.fields));
}

/// A first request without the secret-bearing header, or no request at all,
/// makes the sent plan fail as unsatisfiable.
pub proof fn lemma_absent_header_fails(
    s: Seq<u8>,
    policy: PolicyView,
    result: Result<RangeSet<usize>, SessionError>,
)
    requires
        is_sent_plan(s, policy, result),
        requests_from(s, 0) is Some,
        requests_from(s, 0).unwrap().len() == 0 || first_header(
            s,
            requests_from(s, 0).unwrap()[0].headers,
            policy.secret.name,
            0,
        ) is None,
    ensures
        result == Err::<RangeSet<usize>, SessionError>(SessionError::PlanUnsatisfiable),
{
}

} // verus!
