use signal_http::http::{parse, BodyContent, HttpMethod, HttpRequest, HttpResponse, ParseOutcome};

#[test]
fn test_invalid() {
    // Input closed before any request line: beyond repair.
    assert!(matches!(parse(b"", true), ParseOutcome::Malformed));

    // The headers are not yet terminated and input may still arrive, so the
    // parse stays incomplete rather than failing.
    assert!(matches!(parse(b"GET /chats\r\n", false), ParseOutcome::Incomplete));
}

#[test]
fn test_incomplete() {
    assert_eq!(parse(b"", false), ParseOutcome::Incomplete);
}

#[test]
fn test_http_request_parse_get() {
    assert_eq!(
        parse(
            b"GET /chats/1/messages HTTP/1.0\r\nMy-Header: hello!\r\nMy-Other-Header: goodbye!\r\n\r\n",
            true,
        ),
        ParseOutcome::Complete(HttpRequest {
            body: None,
            headers: vec![
                (b"My-Header".to_vec(), b"hello!".to_vec()),
                (b"My-Other-Header".to_vec(), b"goodbye!".to_vec()),
            ],
            method: HttpMethod::GET,
            path: b"/chats/1/messages".to_vec(),
            version: b"HTTP/1.0".to_vec(),
        })
    );
}

#[test]
fn test_http_request_parse_post() {
    assert_eq!(
        parse(b"POST /chats/1/messages HTTP/1.1\r\n\r\ntest\r\n", true),
        ParseOutcome::Complete(HttpRequest {
            body: Some(b"test\r\n".to_vec()),
            headers: Vec::new(),
            method: HttpMethod::POST,
            path: b"/chats/1/messages".to_vec(),
            version: b"HTTP/1.1".to_vec(),
        })
    );
}

#[test]
fn get_ignores_trailing_body() {
    let r = parse(b"GET /x HTTP/1.1\r\nH: v\r\n\r\nANYTHING", true);
    match r {
        ParseOutcome::Complete(req) => {
            assert_eq!(req.method, HttpMethod::GET);
            assert_eq!(req.body, None);
            assert_eq!(req.path, b"/x".to_vec());
            assert_eq!(req.headers, vec![(b"H".to_vec(), b"v".to_vec())]);
        }
        _ => panic!("a terminated GET must complete at once"),
    }
    // The same holds while the input is still open.
    assert!(matches!(
        parse(b"GET /x HTTP/1.1\r\nH: v\r\n\r\nANYTHING", false),
        ParseOutcome::Complete(_)
    ));
}

#[test]
fn post_waits_for_content_length() {
    assert_eq!(
        parse(b"POST /x HTTP/1.1\r\nContent-Length: 4\r\n\r\nab", false),
        ParseOutcome::Incomplete
    );
    assert_eq!(
        parse(b"POST /x HTTP/1.1\r\nContent-Length: 4\r\n\r\nabcd", false),
        ParseOutcome::Complete(HttpRequest {
            body: Some(b"abcd".to_vec()),
            headers: vec![(b"Content-Length".to_vec(), b"4".to_vec())],
            method: HttpMethod::POST,
            path: b"/x".to_vec(),
            version: b"HTTP/1.1".to_vec(),
        })
    );
}

#[test]
fn malformed_on_premature_close() {
    assert!(matches!(parse(b"", true), ParseOutcome::Malformed));
    assert!(matches!(parse(b"GET /x\r\n", false), ParseOutcome::Incomplete));
    // Once the input closes with the headers unterminated, the parse fails.
    assert!(matches!(parse(b"GET /x\r\n", true), ParseOutcome::Malformed));
    // Headers terminated but the version never resolved: beyond repair even
    // while the input is open.
    assert!(matches!(parse(b"GET /x\r\n\r\n", false), ParseOutcome::Malformed));
}

#[test]
fn content_length_is_case_insensitive() {
    assert_eq!(
        parse(b"POST /x HTTP/1.1\r\ncOnTeNt-LeNgTh: 2\r\n\r\nhi", false),
        ParseOutcome::Complete(HttpRequest {
            body: Some(b"hi".to_vec()),
            headers: vec![(b"cOnTeNt-LeNgTh".to_vec(), b"2".to_vec())],
            method: HttpMethod::POST,
            path: b"/x".to_vec(),
            version: b"HTTP/1.1".to_vec(),
        })
    );
}

#[test]
fn unknown_method_is_malformed_once_headers_end() {
    assert!(matches!(parse(b"BREW /pot HTTP/1.1\r\n\r\n", false), ParseOutcome::Malformed));
    assert!(matches!(parse(b"BREW /pot HTTP/1.1\r\n", false), ParseOutcome::Incomplete));
}

#[test]
fn header_lookup_is_case_sensitive_and_ordered() {
    let r = parse(b"GET / HTTP/1.1\r\nA: 1\r\nA: 2\r\nb: 3\r\n\r\n", true);
    match r {
        ParseOutcome::Complete(req) => {
            assert_eq!(req.header(b"A"), Some(&b"1".to_vec()));
            assert_eq!(req.header(b"b"), Some(&b"3".to_vec()));
            assert_eq!(req.header(b"B"), None);
            assert_eq!(req.header(b"a"), None);
        }
        _ => panic!("request must complete"),
    }
}

#[test]
fn serializer_exact_bytes() {
    let resp = HttpResponse::new(
        b"HTTP/1.1".to_vec(),
        200,
        &[("Content-Type", "text/plain")],
        BodyContent::Str("hello"),
    );
    assert_eq!(
        resp.unparse(),
        b"HTTP/1.1 200 OK\r\nContent-Type: text/plain\r\nContent-Length: 5\r\nConnection: Close\r\n\r\nhello"
            .to_vec()
    );
}

#[test]
fn serializer_shape_and_status_texts() {
    // One Content-Length with the body's byte length, and the bytes end with
    // the close field, a blank line, and the body verbatim.
    let resp = HttpResponse::new(
        b"HTTP/1.0".to_vec(),
        404,
        &[("X", "y"), ("Z", "w")],
        BodyContent::String(String::from("abc")),
    );
    let bytes = resp.unparse();
    let text = String::from_utf8(bytes).unwrap();
    assert_eq!(
        text,
        "HTTP/1.0 404 Not Found\r\nX: y\r\nZ: w\r\nContent-Length: 3\r\nConnection: Close\r\n\r\nabc"
    );
    assert_eq!(text.matches("Content-Length").count(), 1);
    assert!(text.ends_with("Connection: Close\r\n\r\nabc"));

    let texts = [
        (400u16, "Bad Request"),
        (501u16, "Not Implemented"),
        (302u16, ""),
    ];
    for (status, expected) in texts.iter() {
        let r = HttpResponse::new(b"HTTP/1.1".to_vec(), *status, &[], BodyContent::Str(""));
        assert_eq!(r.status_text, *expected);
    }
}

#[test]
fn prefix_of_a_request_never_contradicts_the_whole() {
    let full: &[u8] = b"POST /x HTTP/1.1\r\nContent-Length: 4\r\n\r\nabcd";
    let mut seen_complete = false;
    for cut in 0..full.len() {
        match parse(&full[..cut], false) {
            ParseOutcome::Complete(req) => {
                // Any prefix that completes must agree with the full text.
                assert_eq!(ParseOutcome::Complete(req), parse(full, false));
                seen_complete = true;
            }
            ParseOutcome::Incomplete => {}
            ParseOutcome::Malformed => panic!("no prefix of a valid request is malformed"),
        }
    }
    assert!(!seen_complete);
    assert!(matches!(parse(full, false), ParseOutcome::Complete(_)));
}
