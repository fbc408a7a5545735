use bytes::{Bytes, BytesMut};
use http::header::{HeaderMap, HeaderName, HeaderValue, SEC_WEBSOCKET_PROTOCOL};
use ratchet::crypto::accept_key;
use ratchet::handshake::client::encoding::{
    build_request, complete_request, encode_nonce, encode_request, encode_with_key,
};
use ratchet::handshake::client::{
    check_answer, check_partial_response, parse_response, try_parse_response, upgraded, ClientHandshake,
    HandshakeResult,
};
use ratchet::handshake::head::{gather, RequestHead, ResponseHead, TryMap};
use ratchet::handshake::parser::{ParseResult, StreamingParser};
use ratchet::handshake::server::encoding::{write_response, write_response_with};
use ratchet::handshake::server::{
    answer_with, build_response, build_response_headers, check_partial_request, handshake, parse_request_parts,
    reject_request, response_from_headers, try_parse_request, validate_host_header,
    validate_method_and_version, AcceptStep, InvalidStatusCode, RequestParser,
};
use ratchet::handshake::{validate_header_any, validate_header_value, Nonce};
use ratchet::http_types::{Uri, Version};
use ratchet::{
    accept, accept_with, subscribe, subscribe_with, Cause, Error, Failure, HttpError, InvalidHeader,
    NoExt, NoExtProvider, ProtocolError, Request, Response, Role, SubprotocolRegistry,
    TryIntoRequest, WebSocketConfig, WebSocketResponse, WebSocketUpgrader,
};
use std::convert::Infallible;

fn registry(names: &[&str]) -> SubprotocolRegistry {
    SubprotocolRegistry::new(names.iter().map(|name| name.to_string()).collect()).unwrap()
}

fn protocols(values: &[&[u8]]) -> HeaderMap {
    let mut headers = HeaderMap::new();
    for value in values {
        headers.append(SEC_WEBSOCKET_PROTOCOL, HeaderValue::from_bytes(value).unwrap());
    }
    headers
}

fn map(fields: &[(&'static str, &str)]) -> HeaderMap {
    let mut headers = HeaderMap::new();
    for (name, value) in fields {
        headers.append(
            HeaderName::from_static(name),
            HeaderValue::from_str(value).unwrap(),
        );
    }
    headers
}

fn http_cause(error: &Error) -> &HttpError {
    error.http_cause().expect("Expected an HTTP error")
}

fn core_error<T>(result: Result<T, Failure<Infallible>>) -> Error {
    match result {
        Err(Failure::Core(e)) => e,
        _ => panic!("Expected an error"),
    }
}

#[test]
fn selects_protocol_ok() {
    let headers = protocols(&[b"warp, warps"]);
    let registry = registry(&["warps", "warp"]);

    assert_eq!(
        registry.negotiate_client(&headers),
        Ok(Some("warp".to_string()))
    );
}

#[test]
fn multiple_headers() {
    let headers = protocols(&[b"warp", b"warps"]);
    let registry = registry(&["warps", "warp"]);

    assert_eq!(
        registry.negotiate_client(&headers),
        Ok(Some("warp".to_string()))
    );
}

#[test]
fn mixed_headers() {
    let headers = protocols(&[b"warp1.0", b"warps2.0,warp3.0", b"warps4.0"]);
    let registry = registry(&["warps", "warp", "warps2.0"]);

    assert_eq!(
        registry.negotiate_client(&headers),
        Ok(Some("warps2.0".to_string()))
    );
}

#[test]
fn malformatted() {
    let headers = protocols(&[&[255, 255, 255, 255]]);
    let registry = registry(&["warps", "warp", "warps2.0"]);

    assert_eq!(
        registry.negotiate_client(&headers),
        Err(ProtocolError::Encoding)
    );
}

#[test]
fn no_match() {
    let headers = protocols(&[b"a,b,c"]);
    let registry = registry(&["d"]);

    assert_eq!(registry.negotiate_client(&headers), Ok(None));
}

fn parsed_protocols(values: &[&[u8]]) -> HeaderMap {
    let mut headers = HeaderMap::new();
    let lines: Vec<httparse::Header> = values
        .iter()
        .map(|value| httparse::Header {
            name: SEC_WEBSOCKET_PROTOCOL.as_str(),
            value,
        })
        .collect();
    for line in &lines {
        headers.append(
            HeaderName::from_bytes(line.name.as_bytes()).unwrap(),
            HeaderValue::from_bytes(line.value).unwrap(),
        );
    }
    headers
}

#[test]
fn tests_selects_protocol_ok() {
    let headers = parsed_protocols(&[b"warp, warps"]);
    let registry = registry(&["warps", "warp"]);
    assert_eq!(
        registry.negotiate_client(&headers),
        Ok(Some("warp".to_string()))
    );
}

#[test]
fn tests_multiple_headers() {
    let headers = parsed_protocols(&[b"warp", b"warps"]);
    let registry = registry(&["warps", "warp"]);
    assert_eq!(
        registry.negotiate_client(&headers),
        Ok(Some("warp".to_string()))
    );
}

#[test]
fn tests_mixed_headers() {
    let headers = parsed_protocols(&[b"warp1.0", b"warps2.0,warp3.0", b"warps4.0"]);
    let registry = registry(&["warps", "warp", "warps2.0"]);
    assert_eq!(
        registry.negotiate_client(&headers),
        Ok(Some("warps2.0".to_string()))
    );
}

#[test]
fn tests_malformatted() {
    let headers = parsed_protocols(&[&[255, 255, 255, 255]]);
    let registry = registry(&["warps", "warp", "warps2.0"]);
    assert_eq!(
        registry.negotiate_client(&headers),
        Err(ProtocolError::Encoding)
    );
}

#[test]
fn tests_no_match() {
    let headers = parsed_protocols(&[b"a,b,c"]);
    let registry = registry(&["d"]);
    assert_eq!(registry.negotiate_client(&headers), Ok(None));
}

#[test]
fn match_before_a_malformed_header() {
    let headers = protocols(&[b"warp", &[255]]);
    assert_eq!(
        registry(&["warp"]).negotiate_client(&headers),
        Ok(Some("warp".to_string()))
    );
    assert_eq!(
        registry(&["other"]).negotiate_client(&headers),
        Err(ProtocolError::Encoding)
    );
}

#[test]
fn blanks_around_offers() {
    let headers = protocols(&[b" a ,\t b\t ,, c"]);
    assert_eq!(
        registry(&["b"]).negotiate_client(&headers),
        Ok(Some("b".to_string()))
    );
    assert_eq!(
        registry(&["c"]).negotiate_client(&headers),
        Ok(Some("c".to_string()))
    );
    assert_eq!(registry(&["a ,"]).negotiate_client(&headers), Ok(None));
}

#[test]
fn accepted_subprotocols() {
    let registry = registry(&["warp", "warps"]);
    assert_eq!(
        registry.validate_accepted_subprotocol(&HeaderMap::new()),
        Ok(None)
    );
    assert_eq!(
        registry.validate_accepted_subprotocol(&protocols(&[b"warps"])),
        Ok(Some("warps".to_string()))
    );
    assert_eq!(
        registry.validate_accepted_subprotocol(&protocols(&[b"soap"])),
        Err(ProtocolError::InvalidSubprotocolHeader("soap".to_string()))
    );
    assert_eq!(
        registry.validate_accepted_subprotocol(&protocols(&[b"warp", b"warps"])),
        Err(ProtocolError::InvalidSubprotocolHeader(
            "Server returned too many subprotocols".to_string()
        ))
    );
    assert_eq!(
        registry.validate_accepted_subprotocol(&protocols(&[&[200]])),
        Err(ProtocolError::Encoding)
    );
}

#[test]
fn subprotocols_are_listed_in_order() {
    let mut headers = HeaderMap::new();
    registry(&["b", "a", "b", "c"]).apply_to(&mut headers);
    assert_eq!(headers.get("sec-websocket-protocol").unwrap(), "b, a, c");
    assert_eq!(headers.len(), 1);

    let mut headers = HeaderMap::new();
    SubprotocolRegistry::default().apply_to(&mut headers);
    assert!(headers.is_empty());

    let mut headers = HeaderMap::new();
    registry(&["x"]).clone().apply_to(&mut headers);
    assert_eq!(headers.get("sec-websocket-protocol").unwrap(), "x");
}

#[test]
fn subprotocol_that_is_no_header_value() {
    let error = SubprotocolRegistry::new(vec!["a\nb".to_string(), "c".to_string()]).unwrap_err();
    assert_eq!(
        http_cause(&error),
        &HttpError::MalformattedHeader("a\nb, c".to_string())
    );
}

#[test]
fn subprotocol_of_the_client_that_comes_first_is_agreed_on() {
    let client = registry(&["one", "two", "three"]);
    let server = registry(&["three", "two"]);
    let mut headers = HeaderMap::new();
    client.apply_to(&mut headers);
    let selected = server.negotiate_client(&headers).unwrap().unwrap();
    assert_eq!(selected, "two");
    assert_eq!(
        client.validate_accepted_subprotocol(&map(&[("sec-websocket-protocol", "two")])),
        Ok(Some("two".to_string()))
    );
}

#[test]
fn answers_keys() {
    assert_eq!(
        accept_key(b"dGhlIHNhbXBsZSBub25jZQ=="),
        "s3pPLMBiTxaQ9kYGzzhZRbK+xOo="
    );
}

#[test]
fn header_values_are_validated() {
    let headers = map(&[("upgrade", "WebSocket"), ("connection", "keep-alive, Upgrade")]);
    assert!(validate_header_value(&headers, "upgrade", "websocket").is_ok());
    let error = validate_header_value(&headers, "upgrade", "h2c").unwrap_err();
    assert_eq!(
        http_cause(&error),
        &HttpError::InvalidHeader("upgrade".to_string())
    );
    let error = validate_header_value(&headers, "host", "localhost").unwrap_err();
    assert_eq!(
        http_cause(&error),
        &HttpError::MissingHeader("host".to_string())
    );
    assert!(validate_header_any(&headers, "connection", "upgrade").is_ok());
    let error = validate_header_any(&headers, "connection", "close").unwrap_err();
    assert_eq!(
        http_cause(&error),
        &HttpError::InvalidHeader("connection".to_string())
    );
    assert!(validate_header_any(&headers, "connection", "grade").is_err());
    let error = validate_header_any(&headers, "host", "localhost").unwrap_err();
    assert_eq!(
        http_cause(&error),
        &HttpError::MissingHeader("host".to_string())
    );
}

#[test]
fn one_host_is_required() {
    assert!(validate_host_header(&map(&[("host", "localhost")])).is_ok());
    for headers in [
        map(&[]),
        map(&[("host", "a"), ("host", "b")]),
        map(&[("host", "a, b")]),
        map(&[("host", "a b")]),
    ] {
        let error = validate_host_header(&headers).unwrap_err();
        assert_eq!(
            http_cause(&error),
            &HttpError::MissingHeader("host".to_string())
        );
    }
}

#[test]
fn method_and_version_are_required() {
    assert!(validate_method_and_version(Version::Http11, "GET").is_ok());
    assert!(validate_method_and_version(Version::Http2, "GET").is_ok());
    for version in [Version::Http09, Version::Http10] {
        let error = validate_method_and_version(version, "GET").unwrap_err();
        assert_eq!(
            http_cause(&error),
            &HttpError::HttpVersion("HTTP/1.0".to_string())
        );
    }
    let error = validate_method_and_version(Version::Http11, "get").unwrap_err();
    assert_eq!(
        http_cause(&error),
        &HttpError::HttpMethod(Some("get".to_string()))
    );
}

#[test]
fn texts_become_requests() {
    let request = "ws://localhost:9001/chat?room=1".try_into_request().unwrap();
    assert_eq!(request.method, "GET");
    assert_eq!(request.uri.authority.as_deref(), Some("localhost:9001"));
    assert_eq!(request.uri.path_and_query.as_deref(), Some("/chat?room=1"));
    assert_eq!(request.version, Version::Http11);
    assert!(request.headers.is_empty());

    let owned = "ws://localhost/".to_string();
    assert_eq!((&owned).try_into_request().unwrap().uri.text, "ws://localhost/");
    let uri: Uri = owned.try_into_request().unwrap().uri;
    assert_eq!((&uri).try_into_request().unwrap().uri, uri);
    let request = uri.clone().try_into_request().unwrap();
    assert_eq!(request.try_into_request().unwrap().uri, uri);

    let error = "ws://local host".try_into_request().unwrap_err();
    assert!(matches!(
        error.cause(),
        Some(Cause::Http(HttpError::MalformattedUri(Some(_))))
    ));
}

fn request(target: &str) -> Request {
    target.try_into_request().unwrap()
}

fn encoded(request: Request, subprotocols: &SubprotocolRegistry) -> String {
    let mut buf = BytesMut::new();
    let validated = build_request(request, &NoExtProvider, subprotocols).unwrap();
    encode_with_key(&mut buf, &validated, b"dGhlIHNhbXBsZSBub25jZQ==");
    String::from_utf8(buf.to_vec()).unwrap()
}

#[test]
fn request_is_encoded() {
    assert_eq!(
        encoded(request("ws://localhost:80/chat"), &registry(&["a", "b"])),
        "GET /chat HTTP/1.1\r\n\
         Host: localhost:80\r\n\
         sec-websocket-key: dGhlIHNhbXBsZSBub25jZQ==\r\n\
         host: localhost:80\r\n\
         connection: upgrade\r\n\
         upgrade: websocket\r\n\
         sec-websocket-version: 13\r\n\
         sec-websocket-protocol: a, b\r\n\r\n"
    );
}

#[test]
fn query_without_a_path_is_encoded() {
    let text = encoded(
        request("ws://localhost?case=1"),
        &SubprotocolRegistry::default(),
    );
    assert!(text.starts_with("GET /?case=1 HTTP/1.1\r\nHost: localhost\r\n"));
}

#[test]
fn fields_of_the_user_are_kept() {
    let mut user = request("ws://localhost");
    user.headers = map(&[("cookie", "x"), ("upgrade", "WebSocket"), ("cookie", "y")]);
    assert_eq!(
        encoded(user, &SubprotocolRegistry::default()),
        "GET / HTTP/1.1\r\n\
         Host: localhost\r\n\
         sec-websocket-key: dGhlIHNhbXBsZSBub25jZQ==\r\n\
         cookie: x\r\n\
         cookie: y\r\n\
         upgrade: WebSocket\r\n\
         host: localhost\r\n\
         connection: upgrade\r\n\
         sec-websocket-version: 13\r\n\r\n"
    );
}

fn build_fault(request: Request) -> HttpError {
    let error =
        build_request(request, &NoExtProvider, &SubprotocolRegistry::default()).unwrap_err();
    match error.cause() {
        Some(Cause::Http(HttpError::HttpMethod(method))) => HttpError::HttpMethod(method.clone()),
        Some(Cause::Http(HttpError::HttpVersion(version))) => {
            HttpError::HttpVersion(version.clone())
        }
        Some(Cause::Http(HttpError::InvalidHeader(name))) => HttpError::InvalidHeader(name.clone()),
        Some(Cause::Http(HttpError::MissingAuthority)) => HttpError::MissingAuthority,
        other => panic!("Unexpected cause {:?}", other),
    }
}

#[test]
fn requests_that_cannot_be_sent() {
    let mut post = request("ws://localhost/");
    post.method = "POST".to_string();
    assert_eq!(
        build_fault(post),
        HttpError::HttpMethod(Some("POST".to_string()))
    );

    let mut old = request("ws://localhost/");
    old.version = Version::Http10;
    assert_eq!(
        build_fault(old),
        HttpError::HttpVersion("HTTP/1.0".to_string())
    );

    for name in [
        "sec-websocket-extensions",
        "sec-websocket-protocol",
        "sec-websocket-key",
    ] {
        let mut user = request("ws://localhost/");
        user.headers = map(&[(name, "x")]);
        assert_eq!(build_fault(user), HttpError::InvalidHeader(name.to_string()));
    }

    for name in ["host", "connection", "upgrade", "sec-websocket-version"] {
        let mut user = request("ws://localhost/");
        user.headers = map(&[(name, "x")]);
        assert_eq!(build_fault(user), HttpError::InvalidHeader(name.to_string()));
    }

    assert_eq!(build_fault(request("/chat")), HttpError::MissingAuthority);
}

#[test]
fn completes_requests() {
    let uri = request("ws://localhost/").uri;
    let mut headers = HeaderMap::new();
    for i in 0..24576 {
        headers.insert(
            HeaderName::from_bytes(format!("x-{}", i).as_bytes()).unwrap(),
            HeaderValue::from_static("v"),
        );
    }
    let error = complete_request(
        uri,
        Version::Http11,
        headers,
        &SubprotocolRegistry::default(),
    )
    .unwrap_err();
    assert_eq!(http_cause(&error), &HttpError::TooManyHeaders);
}

#[test]
fn nonces_are_encoded() {
    let mut key: Nonce = [0; 24];
    encode_nonce(*b"the sample nonce", &mut key);
    assert_eq!(&key, b"dGhlIHNhbXBsZSBub25jZQ==");
}

#[test]
fn random_keys_differ() {
    let mut first: Nonce = [0; 24];
    let mut second: Nonce = [0; 24];
    let registry = SubprotocolRegistry::default();
    for key in [&mut first, &mut second] {
        let validated =
            build_request(request("ws://localhost/"), &NoExtProvider, &registry).unwrap();
        let mut buf = BytesMut::new();
        encode_request(&mut buf, validated, key);
        let text = String::from_utf8(buf.to_vec()).unwrap();
        assert!(text.contains(std::str::from_utf8(key).unwrap()));
    }
    assert_ne!(first, second);
}

const KEY: &Nonce = b"dGhlIHNhbXBsZSBub25jZQ==";

fn response_headers() -> HeaderMap {
    map(&[
        ("upgrade", "websocket"),
        ("connection", "upgrade"),
        ("sec-websocket-accept", "s3pPLMBiTxaQ9kYGzzhZRbK+xOo="),
    ])
}

fn parse(
    status: u16,
    version: Version,
    headers: HeaderMap,
) -> Result<HandshakeResult<NoExt>, Failure<Infallible>> {
    parse_response(
        Response {
            status,
            version,
            headers,
        },
        KEY,
        &NoExtProvider,
        &registry(&["warp"]),
    )
}

#[test]
fn response_is_accepted() {
    let result = parse(101, Version::Http11, response_headers()).unwrap();
    assert_eq!(result.subprotocol, None);
    assert!(result.extension.is_none());

    let mut headers = response_headers();
    headers.insert("sec-websocket-protocol", HeaderValue::from_static("warp"));
    let result = parse(101, Version::Http11, headers).unwrap();
    assert_eq!(result.subprotocol.as_deref(), Some("warp"));
}

#[test]
fn responses_that_are_rejected() {
    let error = core_error(parse(101, Version::Http10, response_headers()));
    assert_eq!(
        http_cause(&error),
        &HttpError::HttpVersion("HTTP/1.0".to_string())
    );

    let error = core_error(parse(404, Version::Http11, response_headers()));
    assert_eq!(http_cause(&error), &HttpError::Status(Some(404)));

    let error = core_error(parse(302, Version::Http11, response_headers()));
    assert_eq!(http_cause(&error), &HttpError::Status(Some(302)));

    let error = core_error(parse(302, Version::Http11, map(&[("location", "/there")])));
    assert_eq!(
        http_cause(&error),
        &HttpError::Redirected("/there".to_string())
    );

    let mut headers = HeaderMap::new();
    headers.insert("location", HeaderValue::from_bytes(&[0xff]).unwrap());
    let error = core_error(parse(302, Version::Http11, headers));
    assert!(error.cause().is_none());

    for name in ["upgrade", "connection", "sec-websocket-accept"] {
        let mut headers = response_headers();
        headers.remove(name);
        let error = core_error(parse(101, Version::Http11, headers));
        assert_eq!(
            http_cause(&error),
            &HttpError::MissingHeader(name.to_string())
        );
    }

    let mut headers = response_headers();
    headers.insert("sec-websocket-accept", HeaderValue::from_static("x"));
    let error = core_error(parse(101, Version::Http11, headers));
    assert_eq!(http_cause(&error), &HttpError::KeyMismatch);

    let mut headers = response_headers();
    headers.insert("sec-websocket-protocol", HeaderValue::from_static("soap"));
    let error = core_error(parse(101, Version::Http11, headers));
    assert_eq!(
        error.cause(),
        Some(&Cause::Protocol(ProtocolError::InvalidSubprotocolHeader(
            "soap".to_string()
        )))
    );
}

fn response_head(version: Option<u8>, code: Option<u16>) -> ResponseHead {
    ResponseHead {
        version,
        code,
        headers: Vec::new(),
    }
}

#[test]
fn partial_responses() {
    for (version, code) in [
        (None, None),
        (Some(1), None),
        (Some(1), Some(101)),
        (Some(1), Some(300)),
        (Some(1), Some(399)),
    ] {
        assert!(check_partial_response(&response_head(version, code)).is_ok());
    }
    let error = check_partial_response(&response_head(Some(0), None)).unwrap_err();
    assert_eq!(
        http_cause(&error),
        &HttpError::HttpVersion("HTTP/1.0".to_string())
    );
    let error = check_partial_response(&response_head(Some(1), Some(400))).unwrap_err();
    assert_eq!(http_cause(&error), &HttpError::Status(Some(400)));
    let error = check_partial_response(&response_head(Some(1), Some(99))).unwrap_err();
    assert_eq!(
        error.cause(),
        Some(&Cause::Message("Invalid status code".to_string()))
    );
}

#[test]
fn response_bytes_are_parsed() {
    let registry = SubprotocolRegistry::default();
    let text = "HTTP/1.1 101 Switching Protocols\r\n\
                upgrade: websocket\r\n\
                connection: Upgrade\r\n\
                Sec-WebSocket-Accept: s3pPLMBiTxaQ9kYGzzhZRbK+xOo=\r\n\r\nrest";
    match try_parse_response(text.as_bytes(), KEY, &NoExtProvider, &registry) {
        Ok(ParseResult::Complete(_, length)) => assert_eq!(length, text.len() - 4),
        other => panic!("Unexpected result {:?}", other),
    }
    match try_parse_response(&text.as_bytes()[..30], KEY, &NoExtProvider, &registry) {
        Ok(ParseResult::Partial(head)) => {
            assert_eq!(head.version, Some(1));
            assert_eq!(head.code, Some(101));
        }
        other => panic!("Unexpected result {:?}", other),
    }
    let error = core_error(try_parse_response(
        b"HTTP/x",
        KEY,
        &NoExtProvider,
        &registry,
    ));
    assert_eq!(
        error.cause(),
        Some(&Cause::Message("invalid HTTP version".to_string()))
    );
}

fn request_head(method: Option<&str>, version: Option<u8>) -> RequestHead {
    RequestHead {
        method: method.map(|method| method.to_string()),
        path: Some("/".to_string()),
        version,
        headers: Vec::new(),
    }
}

#[test]
fn partial_requests() {
    for (method, version) in [
        (None, None),
        (Some("GET"), None),
        (Some("get"), Some(1)),
        (None, Some(1)),
    ] {
        assert!(check_partial_request(&request_head(method, version)).is_ok());
    }
    let error = check_partial_request(&request_head(Some("GET"), Some(0))).unwrap_err();
    assert_eq!(
        http_cause(&error),
        &HttpError::HttpVersion("HTTP/1.0".to_string())
    );
    let error = check_partial_request(&request_head(Some("PUT"), Some(1))).unwrap_err();
    assert_eq!(
        http_cause(&error),
        &HttpError::HttpMethod(Some("PUT".to_string()))
    );
}

#[test]
fn heads_are_mapped() {
    let mut head = request_head(Some("GET"), Some(1));
    head.headers = vec![
        ("Host".to_string(), b"a".to_vec()),
        ("X-Two".to_string(), b"1".to_vec()),
        ("x-two".to_string(), b"2".to_vec()),
    ];
    let request: Request = head.try_map().unwrap();
    assert_eq!(request.uri.path_and_query.as_deref(), Some("/"));
    assert_eq!(request.headers.get("host").unwrap(), "a");
    assert_eq!(request.headers.get_all("x-two").iter().count(), 1);
    assert_eq!(request.headers.get("x-two").unwrap(), "2");

    let mut head = request_head(Some("GET"), Some(0));
    head.path = None;
    assert_eq!(
        head.into_request().unwrap_err(),
        HttpError::MalformattedUri(Some("Missing request path".to_string()))
    );
    assert_eq!(
        request_head(None, Some(1)).into_request().unwrap_err(),
        HttpError::HttpMethod(None)
    );
    assert_eq!(
        request_head(Some("G E"), Some(1)).into_request().unwrap_err(),
        HttpError::HttpMethod(Some("G E".to_string()))
    );
    assert_eq!(
        request_head(Some("GET"), Some(2)).into_request().unwrap_err(),
        HttpError::VersionNumber(Some(2))
    );
    assert_eq!(
        request_head(Some("GET"), None).into_request().unwrap_err(),
        HttpError::VersionNumber(None)
    );
    assert_eq!(
        request_head(Some("GET"), Some(0)).into_request().unwrap().version,
        Version::Http10
    );
    let mut head = request_head(Some("GET"), Some(1));
    head.path = Some("not a path".to_string());
    assert!(matches!(
        head.into_request(),
        Err(HttpError::MalformattedUri(Some(_)))
    ));
    let mut head = request_head(Some("GET"), Some(1));
    head.headers = vec![("a b".to_string(), b"c".to_vec())];
    assert_eq!(
        head.into_request().unwrap_err(),
        HttpError::MalformattedHeader("a b: c".to_string())
    );

    let response: Response = response_head(Some(1), Some(101)).try_map().unwrap();
    assert_eq!(response.status, 101);
    assert_eq!(response.version, Version::Http11);
    assert_eq!(
        response_head(Some(1), None).into_response().unwrap_err(),
        HttpError::Status(None)
    );
    assert_eq!(
        response_head(Some(1), Some(99)).into_response().unwrap_err(),
        HttpError::Status(Some(99))
    );
    assert_eq!(
        response_head(Some(9), Some(101)).into_response().unwrap_err(),
        HttpError::VersionNumber(Some(9))
    );
}

#[test]
fn fields_are_gathered() {
    let lines = vec![
        ("Ok".to_string(), b"1".to_vec()),
        ("bad".to_string(), vec![b'a', 0xff, b'\n']),
    ];
    assert_eq!(
        gather(&lines).unwrap_err(),
        InvalidHeader("bad: a\u{fffd}\n".to_string())
    );
    let headers: HeaderMap = (&lines[..1]).try_map().unwrap();
    assert_eq!(headers.get("ok").unwrap(), "1");
    assert!(gather(&[("".to_string(), Vec::new())]).is_err());
    assert!(gather(&[("a".repeat(65535), Vec::new())]).is_ok());
    assert!(gather(&[("a".repeat(65536), Vec::new())]).is_err());
}

fn request_headers() -> HeaderMap {
    map(&[
        ("host", "localhost"),
        ("connection", "keep-alive, Upgrade"),
        ("upgrade", "websocket"),
        ("sec-websocket-version", "13"),
        ("sec-websocket-key", "dGhlIHNhbXBsZSBub25jZQ=="),
        ("sec-websocket-protocol", "soap, warp"),
    ])
}

#[test]
fn request_parts_are_parsed() {
    let parts = parse_request_parts(
        Version::Http11,
        "GET",
        &request_headers(),
        &NoExtProvider,
        &registry(&["warp"]),
    )
    .unwrap();
    assert_eq!(parts.key.as_ref(), KEY);
    assert_eq!(parts.subprotocol.as_deref(), Some("warp"));
    assert!(parts.extension.is_none());
    assert!(parts.extension_header.is_none());
}

#[test]
fn request_parts_that_are_rejected() {
    for name in [
        "host",
        "connection",
        "upgrade",
        "sec-websocket-version",
        "sec-websocket-key",
    ] {
        let mut headers = request_headers();
        headers.remove(name);
        let error = core_error(parse_request_parts(
            Version::Http11,
            "GET",
            &headers,
            &NoExtProvider,
            &SubprotocolRegistry::default(),
        ));
        assert_eq!(
            http_cause(&error),
            &HttpError::MissingHeader(name.to_string())
        );
    }
    let mut headers = request_headers();
    headers.insert(
        "sec-websocket-protocol",
        HeaderValue::from_bytes(&[200]).unwrap(),
    );
    let error = core_error(parse_request_parts(
        Version::Http11,
        "GET",
        &headers,
        &NoExtProvider,
        &SubprotocolRegistry::default(),
    ));
    assert_eq!(error.cause(), Some(&Cause::Protocol(ProtocolError::Encoding)));
}

#[test]
fn responses_are_built() {
    let headers = build_response_headers(
        Bytes::from_static(KEY),
        Some("warp".to_string()),
        Some(HeaderValue::from_static("ext")),
    )
    .unwrap();
    let fields: Vec<(&str, &[u8])> = headers
        .iter()
        .map(|(name, value)| (name.as_str(), value.as_bytes()))
        .collect();
    assert_eq!(
        fields,
        vec![
            (
                "sec-websocket-accept",
                &b"s3pPLMBiTxaQ9kYGzzhZRbK+xOo="[..]
            ),
            ("upgrade", &b"websocket"[..]),
            ("connection", &b"upgrade"[..]),
            ("sec-websocket-protocol", &b"warp"[..]),
            ("sec-websocket-extensions", &b"ext"[..]),
        ]
    );

    let response = build_response(Bytes::from_static(KEY), None, None).unwrap();
    assert_eq!(response.status, 101);
    assert_eq!(response.version, Version::Http11);
    assert_eq!(response.headers.len(), 3);
    assert_eq!(response.headers.get("connection").unwrap(), "Upgrade");
    assert_eq!(response.headers.get("upgrade").unwrap(), "websocket");
    assert_eq!(
        response.headers.get("sec-websocket-accept").unwrap(),
        "s3pPLMBiTxaQ9kYGzzhZRbK+xOo="
    );

    let error = build_response(Bytes::from_static(KEY), Some("a\nb".to_string()), None);
    assert_eq!(
        error.unwrap_err().cause(),
        Some(&Cause::Message("failed to parse header value".to_string()))
    );
}

#[test]
fn server_answer_is_accepted_by_the_client() {
    let (response, extension) = response_from_headers(
        &request_headers(),
        &NoExtProvider,
        &registry(&["warp"]),
    )
    .unwrap();
    assert!(extension.is_none());
    let result = parse_response(response, KEY, &NoExtProvider, &registry(&["warp"])).unwrap();
    assert_eq!(result.subprotocol.as_deref(), Some("warp"));

    let (response, _) = response_from_headers(
        &request_headers(),
        &NoExtProvider,
        &SubprotocolRegistry::default(),
    )
    .unwrap();
    let other: &Nonce = b"AAAAAAAAAAAAAAAAAAAAAA==";
    let error = core_error(parse_response(
        response,
        other,
        &NoExtProvider,
        &SubprotocolRegistry::default(),
    ));
    assert_eq!(http_cause(&error), &HttpError::KeyMismatch);
}

#[test]
fn handshakes_with_requests() {
    let mut request = request("/chat");
    request.headers = request_headers();
    let (response, _) = handshake(request, &NoExtProvider, &registry(&["soap"])).unwrap();
    assert_eq!(response.headers.get("sec-websocket-protocol").unwrap(), "soap");
    assert_eq!(response.headers.get("connection").unwrap(), "Upgrade");

    let mut post = "/chat".try_into_request().unwrap();
    post.method = "POST".to_string();
    let error = core_error(handshake(
        post,
        &NoExtProvider,
        &SubprotocolRegistry::default(),
    ));
    assert_eq!(
        http_cause(&error),
        &HttpError::HttpMethod(Some("POST".to_string()))
    );
}

#[test]
fn responses_are_written() {
    let mut buf = BytesMut::from(&b"old"[..]);
    write_response(
        &mut buf,
        101,
        &map(&[("upgrade", "websocket"), ("connection", "upgrade")]),
        None,
    );
    assert_eq!(
        std::str::from_utf8(&buf).unwrap(),
        "HTTP/1.1 101 Switching Protocols \r\nupgrade: websocket\r\nconnection: upgrade\r\n\r\n"
    );
    write_response(&mut buf, 400, &HeaderMap::new(), Some("why".to_string()));
    assert_eq!(
        std::str::from_utf8(&buf).unwrap(),
        "HTTP/1.1 400 Bad Request \r\nwhy\r\n\r\n"
    );
    write_response(&mut buf, 799, &HeaderMap::new(), None);
    assert_eq!(std::str::from_utf8(&buf).unwrap(), "HTTP/1.1 799\r\n\r\n\r\n");
}

fn accepted(bytes: &[u8]) -> AcceptStep<NoExt, Infallible> {
    let mut acceptor = accept(WebSocketConfig::default());
    acceptor.supply(bytes);
    acceptor.step().0
}

fn upgrader(bytes: &[u8]) -> WebSocketUpgrader<NoExt> {
    match accepted(bytes) {
        AcceptStep::Accepted(upgrader) => upgrader,
        other => panic!("Unexpected step {:?}", other),
    }
}

const REQUEST: &[u8] = b"GET /chat HTTP/1.1\r\n\
    Host: localhost\r\n\
    Connection: Upgrade\r\n\
    Upgrade: websocket\r\n\
    Sec-WebSocket-Version: 13\r\n\
    Sec-WebSocket-Key: dGhlIHNhbXBsZSBub25jZQ==\r\n\r\n";

#[test]
fn upgrades_connections() {
    let upgrader = upgrader(REQUEST);
    assert_eq!(upgrader.subprotocol(), None);
    assert_eq!(upgrader.uri().text, "/chat");
    assert_eq!(upgrader.request().method, "GET");
    let (server, response) = upgrader.upgrade().unwrap();
    assert_eq!(
        std::str::from_utf8(&response).unwrap(),
        "HTTP/1.1 101 Switching Protocols \r\n\
         sec-websocket-accept: s3pPLMBiTxaQ9kYGzzhZRbK+xOo=\r\n\
         upgrade: websocket\r\n\
         connection: upgrade\r\n\r\n"
    );
    assert_eq!(server.request.uri.text, "/chat");
    assert_eq!(server.subprotocol, None);
    assert_eq!(server.into_websocket().role(), Role::Server);
}

#[test]
fn upgrades_with_headers() {
    let (_, response) = upgrader(REQUEST)
        .upgrade_with(map(&[("x-a", "1"), ("x-a", "2"), ("upgrade", "h2c")]))
        .unwrap();
    assert_eq!(
        std::str::from_utf8(&response).unwrap(),
        "HTTP/1.1 101 Switching Protocols \r\n\
         x-a: 1\r\n\
         x-a: 2\r\n\
         upgrade: websocket\r\n\
         sec-websocket-accept: s3pPLMBiTxaQ9kYGzzhZRbK+xOo=\r\n\
         connection: upgrade\r\n\r\n"
    );
}

#[test]
fn upgrade_without_room() {
    let mut headers = HeaderMap::new();
    for i in 0..24576 {
        headers.insert(
            HeaderName::from_bytes(format!("x-{}", i).as_bytes()).unwrap(),
            HeaderValue::from_static("v"),
        );
    }
    match upgrader(REQUEST).upgrade_with(headers) {
        Ok(_) => panic!("There was no room for the headers"),
        Err(e) => assert_eq!(http_cause(&e), &HttpError::TooManyHeaders),
    }
}

#[test]
fn rejects_connections() {
    let bytes = upgrader(REQUEST).reject(WebSocketResponse::new(404).unwrap());
    assert_eq!(
        std::str::from_utf8(&bytes).unwrap(),
        "HTTP/1.1 404 Not Found \r\n\r\n\r\n"
    );
    let response = WebSocketResponse::with_headers(
        503,
        vec![
            (
                HeaderName::from_static("retry-after"),
                HeaderValue::from_static("1"),
            ),
            (
                HeaderName::from_static("retry-after"),
                HeaderValue::from_static("2"),
            ),
        ],
    )
    .unwrap();
    assert_eq!(
        std::str::from_utf8(&upgrader(REQUEST).reject(response)).unwrap(),
        "HTTP/1.1 503 Service Unavailable \r\nretry-after: 1\r\nretry-after: 2\r\n\r\n"
    );
    assert_eq!(
        WebSocketResponse::new(99).unwrap_err(),
        InvalidStatusCode(99)
    );
    assert!(WebSocketResponse::new(100).is_ok());
    assert!(WebSocketResponse::new(999).is_ok());
    assert_eq!(
        WebSocketResponse::with_headers(1000, Vec::new()).unwrap_err(),
        InvalidStatusCode(1000)
    );
}

#[test]
fn requests_arrive_in_pieces() {
    let mut acceptor = accept(WebSocketConfig::default());
    for byte in &REQUEST[..REQUEST.len() - 1] {
        acceptor.supply(&[*byte]);
        match acceptor.step() {
            (AcceptStep::More, Some(rest)) => acceptor = rest,
            (step, _) => panic!("Unexpected step {:?}", step),
        }
    }
    acceptor.supply(&REQUEST[REQUEST.len() - 1..]);
    assert!(matches!(acceptor.step(), (AcceptStep::Accepted(_), None)));
}

#[test]
fn rejected_requests_are_answered() {
    match accepted(b"POST / HTTP/1.1\r\n") {
        AcceptStep::Rejected(Failure::Core(e), Some(response)) => {
            assert_eq!(
                http_cause(&e),
                &HttpError::HttpMethod(Some("POST".to_string()))
            );
            assert_eq!(
                std::str::from_utf8(&response).unwrap(),
                "HTTP/1.1 400 Bad Request \r\nInvalid HTTP method: `POST`\r\n\r\n"
            );
        }
        other => panic!("Unexpected step {:?}", other),
    }
    match accepted(b"GET / HTTP/1.1\r\nHost: a\r\n\r\n") {
        AcceptStep::Rejected(Failure::Core(e), Some(_)) => assert_eq!(
            http_cause(&e),
            &HttpError::MissingHeader("connection".to_string())
        ),
        other => panic!("Unexpected step {:?}", other),
    }
    match accepted(b"\x00") {
        AcceptStep::Rejected(Failure::Core(e), None) => assert_eq!(
            e.cause(),
            Some(&Cause::Message("invalid token".to_string()))
        ),
        other => panic!("Unexpected step {:?}", other),
    }
    let failure: Failure<u8> = Failure::Extension(1);
    assert!(reject_request(&failure).is_none());
}

#[test]
fn too_many_header_lines() {
    let mut bytes = b"GET / HTTP/1.1\r\n".to_vec();
    for i in 0..33 {
        bytes.extend_from_slice(format!("x-{}: 1\r\n", i).as_bytes());
    }
    bytes.extend_from_slice(b"\r\n");
    let error = core_error(try_parse_request(
        &bytes,
        &NoExtProvider,
        &SubprotocolRegistry::default(),
    ));
    assert_eq!(
        error.cause(),
        Some(&Cause::Message("too many headers".to_string()))
    );
}

#[test]
fn client_and_server_shake_hands() {
    let mut client = subscribe_with(
        "ws://localhost:9001/chat",
        NoExtProvider,
        registry(&["one", "two"]),
    )
    .unwrap();

    let mut acceptor = accept_with(
        WebSocketConfig::default(),
        NoExtProvider,
        registry(&["two"]),
    );
    acceptor.supply(client.unsent());
    client.clear_buffer();
    let upgrader = match acceptor.step() {
        (AcceptStep::Accepted(upgrader), None) => upgrader,
        (step, _) => panic!("Unexpected step {:?}", step),
    };
    assert_eq!(upgrader.subprotocol().unwrap(), "two");
    assert_eq!(upgrader.uri().text, "/chat");
    let (server, response) = upgrader.upgrade().unwrap();
    assert_eq!(server.subprotocol.as_deref(), Some("two"));

    let mut parser = client.read();
    parser.supply(&response[..20]);
    assert!(matches!(parser.parse(), Ok(None)));
    parser.supply(&response[20..]);
    parser.supply(&[0x81, 0]);
    let result = match parser.parse() {
        Ok(Some(result)) => result,
        other => panic!("Unexpected result {:?}", other),
    };
    let (_, rest) = parser.into_parts();
    assert_eq!(rest.as_ref(), &[0x81, 0]);
    let config = WebSocketConfig {
        max_message_size: 10,
    };
    let client = upgraded(config, result, rest);
    assert_eq!(client.subprotocol.as_deref(), Some("two"));
    assert_eq!(client.into_websocket().role(), Role::Client);
}

#[test]
fn subscriptions_that_fail() {
    assert!(subscribe("ws://localhost").is_ok());
    match subscribe("/") {
        Ok(_) => panic!("A target without an authority was accepted"),
        Err(e) => assert_eq!(http_cause(&e), &HttpError::MissingAuthority),
    }
    match subscribe(" ") {
        Ok(_) => panic!("A target that is no URI was accepted"),
        Err(e) => assert!(matches!(http_cause(&e), HttpError::MalformattedUri(Some(_)))),
    }
    let mut handshake = ClientHandshake::new(SubprotocolRegistry::default(), NoExtProvider);
    assert!(handshake.encode(request("/")).is_err());
    assert!(handshake.unsent().is_empty());
}

#[test]
fn parsers_keep_what_follows() {
    let mut parser = StreamingParser::new(
        BytesMut::from(REQUEST),
        RequestParser {
            subprotocols: SubprotocolRegistry::default(),
            extension: NoExtProvider,
        },
    );
    parser.supply(b"more");
    assert!(matches!(parser.parse(), Ok(Some(_))));
    assert_eq!(parser.into_parts().1.as_ref(), b"more");
}

#[test]
fn http_errors_are_rendered() {
    for (error, text) in [
        (HttpError::HttpMethod(None), "Missing HTTP method"),
        (HttpError::Redirected("/".to_string()), "Redirected to: `/`"),
        (HttpError::Status(Some(404)), "Unexpected status code: `404`"),
        (HttpError::Status(None), "Missing status code"),
        (
            HttpError::HttpVersion("HTTP/1.0".to_string()),
            "Invalid HTTP version: `HTTP/1.0`",
        ),
        (HttpError::VersionNumber(Some(7)), "Unknown HTTP version: `7`"),
        (HttpError::VersionNumber(None), "Missing HTTP version"),
        (
            HttpError::MissingHeader("host".to_string()),
            "Missing header: `host`",
        ),
        (
            HttpError::InvalidHeader("host".to_string()),
            "Invalid header: `host`",
        ),
        (
            HttpError::MalformattedUri(Some("x".to_string())),
            "Malformatted URI: `x`",
        ),
        (HttpError::MalformattedUri(None), "Malformatted URI"),
        (
            HttpError::MalformattedHeader("x".to_string()),
            "Malformatted header: `x`",
        ),
        (HttpError::MissingAuthority, "Missing authority"),
        (HttpError::TooManyHeaders, "Too many headers"),
        (HttpError::KeyMismatch, "Mismatched key"),
    ] {
        assert_eq!(error.render(), text);
    }
}

#[test]
fn urls_are_targets() {
    let url = url::Url::parse("ws://localhost:9001/chat?room=1").unwrap();
    let by_reference = (&url).try_into_request().unwrap();
    let by_value = url.try_into_request().unwrap();
    for request in [by_reference, by_value] {
        assert_eq!(request.method, "GET");
        assert_eq!(request.uri.authority.as_deref(), Some("localhost:9001"));
        assert_eq!(request.uri.path_and_query.as_deref(), Some("/chat?room=1"));
    }
}

#[test]
fn keys_are_drawn() {
    let handshakes: Vec<String> = (0..2)
        .map(|_| {
            let handshake = ratchet::subscribe("ws://localhost/chat").unwrap();
            String::from_utf8(handshake.unsent().to_vec()).unwrap()
        })
        .collect();
    let key = |text: &str| -> String {
        let line = text
            .lines()
            .find(|line| line.starts_with("sec-websocket-key: "))
            .unwrap();
        line["sec-websocket-key: ".len()..].to_string()
    };
    for text in &handshakes {
        let key = key(text);
        assert_eq!(key.len(), 24);
        assert!(key.ends_with("=="));
        assert!(key
            .chars()
            .all(|c| c.is_ascii_alphanumeric() || c == '+' || c == '/' || c == '='));
    }
    assert_ne!(key(&handshakes[0]), key(&handshakes[1]));
}

#[test]
fn answers_are_checked() {
    let response = || Response {
        status: 101,
        version: Version::Http11,
        headers: map(&[
            ("upgrade", "websocket"),
            ("connection", "Upgrade"),
            ("sec-websocket-accept", "answer"),
        ]),
    };
    let subprotocols = SubprotocolRegistry::default();
    assert_eq!(
        check_answer(&response(), "answer", &subprotocols).unwrap(),
        None
    );
    let error = check_answer(&response(), "Answer", &subprotocols).unwrap_err();
    assert_eq!(http_cause(&error), &HttpError::KeyMismatch);
}

#[test]
fn answers_are_added() {
    let mut headers = map(&[("x-a", "1")]);
    answer_with(&mut headers, "answer", "Upgrade", &None, None).unwrap();
    assert_eq!(headers.get("sec-websocket-accept").unwrap(), "answer");
    assert_eq!(headers.get("connection").unwrap(), "Upgrade");
    assert_eq!(headers.get("upgrade").unwrap(), "websocket");
    assert_eq!(headers.len(), 4);
    let error = answer_with(&mut headers, "a\nb", "Upgrade", &None, None).unwrap_err();
    assert_eq!(
        error.cause(),
        Some(&Cause::Message("failed to parse header value".to_string()))
    );
}

#[test]
fn reason_phrases_are_written() {
    let mut buf = BytesMut::from(&b"before"[..]);
    let headers = map(&[("x-a", "1")]);
    write_response_with(&mut buf, 299, Some("Fine".to_string()), &headers, None);
    assert_eq!(buf.as_ref(), b"HTTP/1.1 299 Fine \r\nx-a: 1\r\n\r\n");
    write_response_with(&mut buf, 299, None, &map(&[]), Some("body".to_string()));
    assert_eq!(buf.as_ref(), b"HTTP/1.1 299\r\nbody\r\n\r\n");
}

#[test]
fn many_headers_are_collected() {
    let headers: Vec<(http::HeaderName, HeaderValue)> = (0..8000)
        .map(|i| {
            let name = http::HeaderName::from_bytes(format!("x-{}", i).as_bytes()).unwrap();
            (name, HeaderValue::from_static("1"))
        })
        .collect();
    assert!(WebSocketResponse::try_with_headers(404, headers.clone())
        .unwrap()
        .is_some());
    assert!(WebSocketResponse::try_with_headers(99, headers).is_err());
}

#[test]
fn many_values_of_one_name_are_collected() {
    let name = HeaderName::from_static("x-a");
    let headers: Vec<(HeaderName, HeaderValue)> = (0..7000)
        .map(|_| (name.clone(), HeaderValue::from_static("1")))
        .collect();
    assert!(WebSocketResponse::with_headers(404, headers).is_ok());
}
