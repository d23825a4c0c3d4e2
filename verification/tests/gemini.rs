use competeevolve::config::GeminiConfig;
use competeevolve::gemini::{
    backoff_seconds, collect_text, read_reply, request_url, retry_delay, short_reason,
    GeminiClient, Verdict,
};
use competeevolve::json::parse_json;

fn client() -> GeminiClient {
    GeminiClient::new(&GeminiConfig::default())
}

#[test]
fn models_are_called_at_their_address() {
    assert_eq!(
        request_url("m"),
        "https://generativelanguage.googleapis.com/v1beta/models/m:generateContent"
    );
}

#[test]
fn turns_are_an_interval_apart() {
    let mut c = client();
    assert_eq!(c.wait_turn(100, 12), 100);
    assert_eq!(c.wait_turn(101, 12), 112);
    assert_eq!(c.wait_turn(102, 12), 124);
    assert_eq!(c.wait_turn(500, 12), 500);
    assert_eq!(c.calls(), 0);
    c.count_call();
    c.count_call();
    assert_eq!(c.calls(), 2);
    assert_eq!(c.max_retries, 6);
}

#[test]
fn waiting_doubles_up_to_a_minute() {
    let waits: Vec<u64> = (0..8).map(backoff_seconds).collect();
    assert_eq!(waits, vec![2, 4, 8, 16, 32, 60, 60, 60]);
}

#[test]
fn content_is_handed_on() {
    let raw = "{\"candidates\": [{\"content\": {\"parts\": [{\"text\": \"a\"}, {\"x\": 1}, {\"text\": \"b\"}]}}]}";
    let reply = read_reply(raw);
    let Verdict::Content(content) = client().generate(500, &reply, raw, 0) else {
        panic!("no content");
    };
    assert_eq!(collect_text(content), "ab");
    assert_eq!(GeminiClient::generate_text(content), Ok("ab".to_string()));
    let blank = parse_json("{\"parts\": [{\"text\": \" \"}]}").unwrap();
    assert_eq!(GeminiClient::generate_text(&blank), Err("Gemini returned no text"));
    assert_eq!(collect_text(&parse_json("{\"parts\": 3}").unwrap()), "");
}

#[test]
fn limits_are_retried_with_the_delay_asked_for() {
    let raw = "{\"error\": {\"status\": \"RESOURCE_EXHAUSTED\", \"message\": \"slow\", \"details\": [{\"@type\": \"other\", \"retryDelay\": \"1s\"}, {\"@type\": \"type.googleapis.com/google.rpc.RetryInfo\", \"retryDelay\": \"17.5s\"}]}}";
    let reply = read_reply(raw);
    assert_eq!(retry_delay(&reply), Some("17.5".to_string()));
    match client().generate(200, &reply, raw, 3) {
        Verdict::Retry { asked, otherwise, reason } => {
            assert_eq!(asked.as_deref(), Some("17.5"));
            assert_eq!(otherwise, 16);
            assert_eq!(reason, "HTTP 200 RESOURCE_EXHAUSTED: slow");
        }
        _ => panic!("not retried"),
    }
    // The last attempt is not repeated.
    match client().generate(429, &reply, raw, 6) {
        Verdict::Failed(e) => {
            assert_eq!(e, "Gemini request failed: HTTP 429 RESOURCE_EXHAUSTED: slow")
        }
        _ => panic!("retried"),
    }
}

#[test]
fn what_is_retried_and_what_is_not() {
    let raw = "oops";
    let reply = read_reply(raw);
    let c = client();
    for code in [0, 429, 500, 503] {
        assert!(matches!(c.generate(code, &reply, raw, 0), Verdict::Retry { asked: None, otherwise: 2, .. }));
    }
    for code in [200, 400, 404, 499] {
        assert!(matches!(c.generate(code, &reply, raw, 0), Verdict::Failed(_)));
    }
    let busy = "{\"error\": {\"status\": \"UNAVAILABLE\"}}";
    assert!(matches!(c.generate(200, &read_reply(busy), busy, 0), Verdict::Retry { .. }));
    assert_eq!(short_reason(400, &reply, raw), "HTTP 400: oops");
    let mut long = "HTTP 400: ".to_string();
    long.push_str(&"x".repeat(200));
    long.push_str("...");
    assert_eq!(short_reason(400, &reply, &"x".repeat(201)), long);
}

#[test]
fn failures_name_their_reason() {
    let c = client();
    let blocked = "{\"promptFeedback\": {\"blockReason\": \"SAFETY\"}}";
    match c.generate(200, &read_reply(blocked), blocked, 0) {
        Verdict::Failed(e) => assert_eq!(e, "prompt blocked by Gemini: SAFETY"),
        _ => panic!("not failed"),
    }
    let empty = "{\"candidates\": [{\"finishReason\": \"MAX_TOKENS\"}]}";
    match c.generate(200, &read_reply(empty), empty, 0) {
        Verdict::Failed(e) => assert_eq!(
            e,
            "Gemini returned an empty candidate (finishReason=MAX_TOKENS)"
        ),
        _ => panic!("not failed"),
    }
}

fn requests_made(replies: &[(u16, &str)], max_retries: u32) -> (usize, bool) {
    let mut c = client();
    c.max_retries = max_retries;
    let mut attempt = 0u32;
    loop {
        let (code, raw) = replies[attempt as usize];
        let reply = read_reply(raw);
        match c.generate(code, &reply, raw, attempt) {
            Verdict::Retry { .. } => attempt += 1,
            Verdict::Content(_) => return (attempt as usize + 1, true),
            Verdict::Failed(_) => return (attempt as usize + 1, false),
        }
    }
}

#[test]
fn requests_are_repeated_so_often_and_no_more() {
    let content = "{\"candidates\": [{\"content\": {\"parts\": []}}]}";
    let busy = (503, "busy");
    let limit = (429, "slow");
    let bad = (400, "bad");
    assert_eq!(requests_made(&[(200, content)], 0), (1, true));
    assert_eq!(requests_made(&[busy, limit, (200, content), bad], 3), (3, true));
    assert_eq!(requests_made(&[busy, bad, (200, content), busy], 3), (2, false));
    assert_eq!(requests_made(&[busy, busy, busy, busy, (200, content)], 3), (4, false));
    assert_eq!(requests_made(&[limit, (200, content)], 0), (1, false));
}
