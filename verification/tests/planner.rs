use rangeset::set::RangeSet;
use std::ops::Range;
use zk_rwa_prover::error::{ParseError, SessionError};
use zk_rwa_prover::planner::{plan_received, plan_sent};
use zk_rwa_prover::policy::{
    DisclosurePolicy, FieldConstraint, FieldRule, HeaderConstraint, HeaderRule,
};

const REQUEST: &[u8] =
    b"GET /balances HTTP/1.1\r\nHost: x\r\nAuthorization: Bearer SECRET123\r\nConnection: close\r\n\r\n";

const BODY: &[u8] =
    b"{\"organization\":\"Acme\",\"bank\":\"SwissBank\",\"accounts\":{\"USD\":\"100\",\"EUR\":\"50\",\"CHF\":\"75\"}}";

fn response(body: &[u8]) -> Vec<u8> {
    let mut bytes = format!(
        "HTTP/1.1 200 OK\r\nContent-Type: application/json\r\nContent-Length: {}\r\n\r\n",
        body.len()
    )
    .into_bytes();
    bytes.extend_from_slice(body);
    bytes
}

fn find(haystack: &[u8], needle: &[u8]) -> usize {
    haystack.windows(needle.len()).position(|w| w == needle).unwrap()
}

fn policy(secret: HeaderConstraint, fields: &[(&str, FieldConstraint)]) -> DisclosurePolicy {
    DisclosurePolicy::new(
        HeaderRule::new("Authorization", secret),
        fields.iter().map(|(path, c)| FieldRule::new(path, *c)).collect(),
    )
}

fn ranges(set: &RangeSet<usize>) -> Vec<Range<usize>> {
    set.iter().collect()
}

#[test]
fn sent_plan_hides_exactly_the_credentials() {
    let plan = plan_sent(REQUEST, &policy(HeaderConstraint::HideCredentials, &[])).unwrap();
    let secret = find(REQUEST, b"SECRET123");
    assert_eq!(ranges(&plan), vec![0..secret, secret + 9..REQUEST.len()]);
    for i in 0..REQUEST.len() {
        assert_eq!(plan.contains(&i), !(secret..secret + 9).contains(&i));
    }
    assert_eq!(plan.len(), REQUEST.len() - 9);
}

#[test]
fn sent_plan_hides_the_whole_value() {
    let plan = plan_sent(REQUEST, &policy(HeaderConstraint::HideValue, &[])).unwrap();
    let value = find(REQUEST, b"Bearer SECRET123");
    assert_eq!(ranges(&plan), vec![0..value, value + 16..REQUEST.len()]);
}

#[test]
fn sent_plan_of_the_bank_statement_policy() {
    let request = b"GET /api/account HTTP/1.1\r\nhost: mock-bank\r\nconnection: close\r\nauthorization: Bearer random_auth_token\r\n\r\n";
    let plan = plan_sent(request, &DisclosurePolicy::bank_statement()).unwrap();
    let value = find(request, b"Bearer random_auth_token");
    assert_eq!(ranges(&plan), vec![0..value, value + 24..request.len()]);
}

#[test]
fn sent_plan_looks_at_the_first_request_only() {
    let mut two = b"GET / HTTP/1.1\r\nAuthorization: abc\r\n\r\n".to_vec();
    let first_len = two.len();
    two.extend_from_slice(b"GET / HTTP/1.1\r\nAuthorization: def\r\n\r\n");
    let plan = plan_sent(&two, &policy(HeaderConstraint::HideValue, &[])).unwrap();
    let value = find(&two, b"abc");
    assert_eq!(ranges(&plan), vec![0..value, value + 3..two.len()]);
    assert!(plan.contains(&(first_len + find(&two[first_len..], b"def"))));
}

#[test]
fn sent_plan_fails_without_the_secret_header() {
    let request = b"GET / HTTP/1.1\r\nHost: x\r\n\r\n";
    let p = policy(HeaderConstraint::HideValue, &[]);
    assert_eq!(plan_sent(request, &p).unwrap_err(), SessionError::PlanUnsatisfiable);
    assert_eq!(plan_sent(b"", &p).unwrap_err(), SessionError::PlanUnsatisfiable);
    assert_eq!(
        plan_sent(b"GET /", &p).unwrap_err(),
        SessionError::Parse(ParseError::MalformedHttp)
    );
}

#[test]
fn sent_plan_fails_on_a_value_without_credentials() {
    let p = policy(HeaderConstraint::HideCredentials, &[]);
    for value in ["token", "Bearer ", "Bearer", ""] {
        let request = format!("GET / HTTP/1.1\r\nAuthorization: {}\r\n\r\n", value);
        assert_eq!(
            plan_sent(request.as_bytes(), &p).unwrap_err(),
            SessionError::PlanUnsatisfiable,
            "{:?}",
            value
        );
    }
    let request = b"GET / HTTP/1.1\r\nAuthorization: Basic  dXNlcjpwYXNz \r\n\r\n";
    let plan = plan_sent(request, &p).unwrap();
    let secret = find(request, b"dXNlcjpwYXNz");
    assert_eq!(ranges(&plan), vec![0..secret, secret + 12..request.len()]);
}

#[test]
fn received_plan_reveals_the_five_pairs_and_nothing_else() {
    let bytes = response(BODY);
    let plan = plan_received(&bytes, &DisclosurePolicy::bank_statement()).unwrap();
    let pairs: [&[u8]; 5] = [
        b"\"organization\":\"Acme\"",
        b"\"bank\":\"SwissBank\"",
        b"\"USD\":\"100\"",
        b"\"EUR\":\"50\"",
        b"\"CHF\":\"75\"",
    ];
    let mut expected = Vec::new();
    let mut total = 0;
    for pair in pairs {
        let at = find(&bytes, pair);
        expected.push(at..at + pair.len());
        total += pair.len();
    }
    assert_eq!(ranges(&plan), expected);
    assert_eq!(plan.len(), total);
    for r in ranges(&plan) {
        assert!(pairs.contains(&&bytes[r]));
    }
}

#[test]
fn received_plan_follows_the_spelling_of_the_body() {
    let body = b"{ \"organization\" : \"Acme\",\n  \"amount\":  12.50 , \"open\": true }";
    let bytes = response(body);
    let p = policy(
        HeaderConstraint::HideValue,
        &[
            ("organization", FieldConstraint::RevealKeyAndValue),
            ("amount", FieldConstraint::RevealKeyAndValue),
            ("open", FieldConstraint::RevealValue),
        ],
    );
    let plan = plan_received(&bytes, &p).unwrap();
    let revealed: Vec<&[u8]> = ranges(&plan).into_iter().map(|r| &bytes[r]).collect();
    assert_eq!(
        revealed,
        vec![&b"\"organization\" : \"Acme\""[..], &b"\"amount\":  12.50"[..], &b"true"[..]]
    );
}

#[test]
fn received_plan_reveals_a_value_with_its_quotes() {
    let bytes = response(BODY);
    let p = policy(HeaderConstraint::HideValue, &[("bank", FieldConstraint::RevealValue)]);
    let plan = plan_received(&bytes, &p).unwrap();
    let at = find(&bytes, b"\"SwissBank\"");
    assert_eq!(ranges(&plan), vec![at..at + 11]);
}

#[test]
fn received_plan_merges_what_overlaps_and_sorts() {
    let bytes = response(BODY);
    let p = policy(
        HeaderConstraint::HideValue,
        &[
            ("accounts.CHF", FieldConstraint::RevealKeyAndValue),
            ("bank", FieldConstraint::RevealValue),
            ("bank", FieldConstraint::RevealKeyAndValue),
            ("organization", FieldConstraint::RevealKeyAndValue),
        ],
    );
    let plan = plan_received(&bytes, &p).unwrap();
    let org = find(&bytes, b"\"organization\":\"Acme\"");
    let bank = find(&bytes, b"\"bank\":\"SwissBank\"");
    let chf = find(&bytes, b"\"CHF\":\"75\"");
    assert_eq!(ranges(&plan), vec![org..org + 21, bank..bank + 18, chf..chf + 10]);
}

#[test]
fn received_plan_with_no_rules_reveals_nothing() {
    let bytes = response(BODY);
    let plan = plan_received(&bytes, &policy(HeaderConstraint::HideValue, &[])).unwrap();
    assert!(plan.is_empty());
}

#[test]
fn received_plan_fails_on_an_absent_field() {
    let bytes = response(BODY);
    for missing in ["accounts.GBP", "accounts", "Organization", "bank.name", ""] {
        let p = policy(
            HeaderConstraint::HideValue,
            &[
                ("organization", FieldConstraint::RevealKeyAndValue),
                (missing, FieldConstraint::RevealKeyAndValue),
            ],
        );
        assert_eq!(
            plan_received(&bytes, &p).unwrap_err(),
            SessionError::PlanUnsatisfiable,
            "{:?}",
            missing
        );
    }
}

#[test]
fn received_plan_fails_on_a_malformed_transcript() {
    let p = DisclosurePolicy::bank_statement();
    assert_eq!(
        plan_received(b"", &p).unwrap_err(),
        SessionError::Parse(ParseError::MalformedHttp)
    );
    assert_eq!(
        plan_received(&response(b"{\"organization\":"), &p).unwrap_err(),
        SessionError::Parse(ParseError::MalformedJson)
    );
    assert_eq!(
        plan_received(&response(b""), &p).unwrap_err(),
        SessionError::Parse(ParseError::MalformedJson)
    );
}

#[test]
fn planning_twice_gives_the_same_sets() {
    let p = DisclosurePolicy::bank_statement();
    let bytes = response(BODY);
    assert_eq!(plan_received(&bytes, &p).unwrap(), plan_received(&bytes, &p).unwrap());
    let request = b"GET / HTTP/1.1\r\nAuthorization: Bearer t\r\n\r\n";
    assert_eq!(plan_sent(request, &p).unwrap(), plan_sent(request, &p).unwrap());
    let missing = policy(HeaderConstraint::HideValue, &[("x", FieldConstraint::RevealValue)]);
    assert_eq!(plan_received(&bytes, &missing), plan_received(&bytes, &missing));
}
