use zk_rwa_prover::error::ParseError;
use zk_rwa_prover::http::{find_header, parse_request, parse_requests, parse_response};
use zk_rwa_prover::json::parse_json;

const REQUEST: &[u8] =
    b"GET /balances HTTP/1.1\r\nHost: x\r\nAuthorization: Bearer SECRET123\r\nConnection: close\r\n\r\n";

#[test]
fn request_line_and_headers_are_located() {
    let request = parse_request(REQUEST).unwrap();
    assert_eq!(&REQUEST[request.method.start..request.method.end], b"GET");
    assert_eq!(&REQUEST[request.target.start..request.target.end], b"/balances");
    assert_eq!(request.headers.len(), 3);
    let h = request.headers[1];
    assert_eq!(&REQUEST[h.name.start..h.name.end], b"Authorization");
    assert_eq!(&REQUEST[h.value.start..h.value.end], b"Bearer SECRET123");
    assert_eq!(request.body.start, REQUEST.len());
    assert_eq!(request.body.end, REQUEST.len());
    assert_eq!(request.span.start, 0);
    assert_eq!(request.span.end, REQUEST.len());
}

#[test]
fn header_lookup_ignores_case() {
    let request = parse_request(REQUEST).unwrap();
    assert_eq!(find_header(REQUEST, &request.headers, b"authorization"), Some(1));
    assert_eq!(find_header(REQUEST, &request.headers, b"AUTHORIZATION"), Some(1));
    assert_eq!(find_header(REQUEST, &request.headers, b"connection"), Some(2));
    assert_eq!(find_header(REQUEST, &request.headers, b"cookie"), None);
}

#[test]
fn header_lookup_through_the_message() {
    let request = parse_request(REQUEST).unwrap();
    let host = request.header(REQUEST, b"HOST").unwrap();
    assert_eq!(&REQUEST[host.value.start..host.value.end], b"x");
    assert_eq!(request.header(REQUEST, b"cookie").unwrap_err(), ParseError::MissingHeader);
    let bytes = b"HTTP/1.1 200 OK\r\nA: 1\r\na: 2\r\nB:\t \r\n\r\n";
    let response = parse_response(bytes).unwrap();
    let a = response.header(bytes, b"a").unwrap();
    assert_eq!(&bytes[a.value.start..a.value.end], b"1");
    let b = response.header(bytes, b"b").unwrap();
    assert_eq!(b.value.start, b.value.end);
    assert_eq!(response.header(bytes, b"c").unwrap_err(), ParseError::MissingHeader);
}

#[test]
fn requests_follow_one_another() {
    let mut two = REQUEST.to_vec();
    two.extend_from_slice(b"POST /x HTTP/1.1\r\nContent-Length: 3\r\n\r\nabc");
    let requests = parse_requests(&two).unwrap();
    assert_eq!(requests.len(), 2);
    assert_eq!(requests[1].span.start, REQUEST.len());
    assert_eq!(&two[requests[1].body.start..requests[1].body.end], b"abc");
    assert_eq!(parse_requests(b"").unwrap().len(), 0);
}

#[test]
fn malformed_requests_are_rejected() {
    assert_eq!(parse_request(b"").unwrap_err(), ParseError::MalformedHttp);
    assert_eq!(parse_request(b"GET /\r\n\r\n").unwrap_err(), ParseError::MalformedHttp);
    assert_eq!(
        parse_request(b"GET / HTTP/1.1\r\nBad Header: x\r\n\r\n").unwrap_err(),
        ParseError::MalformedHttp
    );
    assert_eq!(
        parse_request(b"GET / HTTP/1.1\r\nContent-Length: 5\r\n\r\nabc").unwrap_err(),
        ParseError::MalformedHttp
    );
    assert_eq!(
        parse_request(b"GET / HTTP/1.1\r\nTransfer-Encoding: chunked\r\n\r\n").unwrap_err(),
        ParseError::MalformedHttp
    );
    assert_eq!(
        parse_requests(b"GET / HTTP/1.1\r\n\r\ntrailing").unwrap_err(),
        ParseError::MalformedHttp
    );
}

#[test]
fn response_status_and_body_are_located() {
    let bytes = b"HTTP/1.1 200 OK\r\nContent-Type: application/json\r\nContent-Length: 7\r\n\r\n{\"a\":1}";
    let response = parse_response(bytes).unwrap();
    assert_eq!(response.status, 200);
    assert_eq!(response.headers.len(), 2);
    assert_eq!(&bytes[response.body.start..response.body.end], b"{\"a\":1}");
    let to_end = b"HTTP/1.0 404\r\n\r\nnot here";
    let response = parse_response(to_end).unwrap();
    assert_eq!(response.status, 404);
    assert_eq!(&to_end[response.body.start..response.body.end], b"not here");
    assert_eq!(
        parse_response(b"HTTP/1.1 200 OK\r\nContent-Length: 2\r\n\r\nabc").unwrap_err(),
        ParseError::MalformedHttp
    );
    assert_eq!(parse_response(b"HTTP/1.1 20 OK\r\n\r\n").unwrap_err(), ParseError::MalformedHttp);
}

#[test]
fn json_fields_are_named_by_dotted_paths() {
    let body = b" {\"organization\": \"Acme\", \"n\": -1.5e3, \"accounts\": {\"USD\": \"100\", \"ok\": true},\n \"list\": [1, {\"x\": null}], \"e\": {}} ";
    let doc = parse_json(body, 10).unwrap();
    let paths: Vec<&[u8]> = doc.fields.iter().map(|f| f.path.as_slice()).collect();
    assert_eq!(
        paths,
        vec![&b"organization"[..], &b"n"[..], &b"accounts.USD"[..], &b"accounts.ok"[..]]
    );
    let org = doc.get(b"organization").unwrap();
    assert!(org.quoted);
    assert_eq!(&body[org.key.start - 10..org.key.end - 10], b"organization");
    assert_eq!(&body[org.value.start - 10..org.value.end - 10], b"Acme");
    let n = doc.get(b"n").unwrap();
    assert!(!n.quoted);
    assert_eq!(&body[n.value.start - 10..n.value.end - 10], b"-1.5e3");
    let usd = doc.get(b"accounts.USD").unwrap();
    assert_eq!(&body[usd.value.start - 10..usd.value.end - 10], b"100");
    assert_eq!(doc.get(b"accounts").unwrap_err(), ParseError::MissingField);
    assert_eq!(doc.get(b"list.1.x").unwrap_err(), ParseError::MissingField);
    assert_eq!(doc.get(b"missing").unwrap_err(), ParseError::MissingField);
}

#[test]
fn malformed_json_is_rejected() {
    for bad in [
        &b""[..],
        b"{",
        b"{\"a\":}",
        b"{\"a\":1,}",
        b"{\"a\" 1}",
        b"[1 2]",
        b"01",
        b"1.",
        b"1e",
        b"\"abc",
        b"\"a\\x\"",
        b"tru",
        b"{} {}",
        b"{'a':1}",
        b"\"a\nb\"",
    ] {
        assert_eq!(parse_json(bad, 0).unwrap_err(), ParseError::MalformedJson, "{:?}", bad);
    }
    for good in [
        &b"0"[..],
        b"-0.5E+10",
        b"\"a\\u00e9\\n\"",
        b"[]",
        b"[[],{}]",
        b" null ",
        b"{\"a\":{\"b\":{\"c\":[true,false]}}}",
    ] {
        assert!(parse_json(good, 0).is_ok(), "{:?}", good);
    }
}

#[test]
fn nesting_is_bounded() {
    let mut deep = Vec::new();
    for _ in 0..128 {
        deep.push(b'[');
    }
    for _ in 0..128 {
        deep.push(b']');
    }
    assert!(parse_json(&deep, 0).is_ok());
    deep.insert(0, b'[');
    deep.push(b']');
    assert_eq!(parse_json(&deep, 0).unwrap_err(), ParseError::MalformedJson);
}
