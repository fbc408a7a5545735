use bytes::Bytes;
use http::{HeaderMap, HeaderValue};
use ratchet::autobahn::{
    await_server_start, cargo_command, case_count_target, docker_client_command,
    docker_server_command, echo, local_address, run_case_target, update_reports_target,
    validate_results, Attempt, Echo, TestOutcome, Verdict,
};
use ratchet::axum::WebSocketUpgrade;
use ratchet::{Message, PayloadType};

fn outcomes(tests: &[(&str, Option<&str>)]) -> Vec<(String, TestOutcome)> {
    tests
        .iter()
        .map(|(id, behavior)| {
            let outcome = match behavior {
                Some(behavior) => TestOutcome::Behavior(behavior.to_string()),
                None => TestOutcome::Malformed,
            };
            (id.to_string(), outcome)
        })
        .collect()
}

#[test]
fn results_are_judged() {
    assert_eq!(validate_results(&[]), Verdict::Passed);
    assert_eq!(
        validate_results(&outcomes(&[
            ("1.1", Some("OK")),
            ("1.2", Some("NON-STRICT")),
            ("1.3", Some("INFORMATIONAL")),
        ])),
        Verdict::Passed
    );
    assert_eq!(
        validate_results(&outcomes(&[
            ("1.1", Some("FAILED")),
            ("1.2", Some("OK")),
            ("1.3", Some("UNCLEAN")),
        ])),
        Verdict::Failed(vec![
            "Test 1.1 failed with: FAILED".to_string(),
            "Test 1.3 failed with: UNCLEAN".to_string(),
        ])
    );
    assert_eq!(
        validate_results(&outcomes(&[("1.1", Some("FAILED")), ("1.2", None)])),
        Verdict::Invalid
    );
}

#[test]
fn servers_are_awaited() {
    assert_eq!(await_server_start(true, 100, 0), Attempt::Started);
    assert_eq!(await_server_start(false, 0, 0), Attempt::Retry(1));
    assert_eq!(await_server_start(false, 30, 0), Attempt::Retry(1));
    for (seconds, nanos) in [(30, 1), (31, 0)] {
        assert_eq!(
            await_server_start(false, seconds, nanos),
            Attempt::TimedOut("Autobahn Server failed to start within 30 seconds".to_string())
        );
    }
}

#[test]
fn targets_are_written() {
    assert_eq!(local_address(9001), "127.0.0.1:9001");
    assert_eq!(case_count_target(9001), "ws://localhost:9001/getCaseCount");
    assert_eq!(
        run_case_target(9003, 7, "Ratchet"),
        "ws://localhost:9003/runCase?case=7&agent=Ratchet"
    );
    assert_eq!(
        update_reports_target(9003, "Ratchet"),
        "ws://localhost:9003/updateReports?agent=Ratchet"
    );
}

#[test]
fn messages_are_echoed() {
    assert_eq!(echo(&Message::Text), Echo::Payload(PayloadType::Text));
    assert_eq!(echo(&Message::Binary), Echo::Payload(PayloadType::Binary));
    assert_eq!(echo(&Message::Ping(Bytes::new())), Echo::Nothing);
    assert_eq!(echo(&Message::Pong(Bytes::new())), Echo::Nothing);
    assert_eq!(echo(&Message::Close(None)), Echo::Over);
}

#[test]
fn commands_are_written() {
    assert_eq!(
        cargo_command("autobahn-client").join(" "),
        "run --release --example autobahn-client --all-features"
    );
    assert_eq!(
        docker_server_command("/v", 9001, "fuzzingserver").join(" "),
        "run -d --rm -v /v -p 9001:9001 --init --platform linux/amd64 --name fuzzingserver \
         crossbario/autobahn-testsuite:0.8.2 wstest -m fuzzingserver -s autobahn/fuzzingserver.json"
    );
    assert_eq!(
        docker_client_command("/v").join(" "),
        "run --rm -v /v --network host --platform linux/amd64 \
         crossbario/autobahn-testsuite:0.8.2 wstest -m fuzzingclient -s autobahn/fuzzingclient.json"
    );
}

fn headers(version: &'static str, extensions: Option<&'static str>) -> HeaderMap {
    let mut headers = HeaderMap::new();
    headers.insert(
        "sec-websocket-key",
        HeaderValue::from_static("dGhlIHNhbXBsZSBub25jZQ=="),
    );
    headers.insert("sec-websocket-version", HeaderValue::from_static(version));
    if let Some(extensions) = extensions {
        headers.insert(
            "sec-websocket-extensions",
            HeaderValue::from_static(extensions),
        );
    }
    headers
}

#[test]
fn requests_of_another_server_are_upgraded() {
    let upgrade = WebSocketUpgrade::from_request_parts(&headers("13", None), true).unwrap();
    assert!(!upgrade.permessage_deflate);
    let (response, received) = upgrade.upgrade();
    assert_eq!(response.status, 101);
    assert_eq!(received, headers("13", None));
    let fields: Vec<(&str, &[u8])> = response
        .headers
        .iter()
        .map(|(name, value)| (name.as_str(), value.as_bytes()))
        .collect();
    assert_eq!(
        fields,
        vec![
            ("connection", &b"upgrade"[..]),
            ("upgrade", &b"websocket"[..]),
            (
                "sec-websocket-accept",
                &b"s3pPLMBiTxaQ9kYGzzhZRbK+xOo="[..]
            ),
        ]
    );
}

#[test]
fn compression_is_noticed() {
    for (extensions, offered) in [
        ("permessage-deflate", true),
        ("x, PerMessage-Deflate; client_max_window_bits", true),
        ("permessage", false),
        ("", false),
    ] {
        let upgrade =
            WebSocketUpgrade::from_request_parts(&headers("13", Some(extensions)), true).unwrap();
        assert_eq!(upgrade.permessage_deflate, offered);
        let (response, _) = upgrade.upgrade();
        assert_eq!(
            response.headers.get("sec-websocket-extensions").is_some(),
            offered
        );
    }
    let mut unreadable = headers("13", None);
    unreadable.insert(
        "sec-websocket-extensions",
        HeaderValue::from_bytes(b"permessage-deflate\xff").unwrap(),
    );
    let upgrade = WebSocketUpgrade::from_request_parts(&unreadable, true).unwrap();
    assert!(!upgrade.permessage_deflate);
}

#[test]
fn requests_that_are_no_upgrades() {
    assert_eq!(
        WebSocketUpgrade::from_request_parts(&headers("12", None), true).unwrap_err(),
        400
    );
    assert_eq!(
        WebSocketUpgrade::from_request_parts(&headers("13", None), false).unwrap_err(),
        400
    );
    assert_eq!(
        WebSocketUpgrade::from_request_parts(&HeaderMap::new(), true).unwrap_err(),
        400
    );
}
