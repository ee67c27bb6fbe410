use std::time::Duration;

use modular_agent_jev::error::{is_retryable_status, status_display, status_error, Error};
use modular_agent_jev::retry::{
    backoff_delay, decode_error, parse_retry_after, Action, Event, SystemOneCall, MAX_DELAY_SECS,
    MAX_RETRIES,
};

fn secs(d: u64) -> Duration {
    Duration::from_secs(d)
}

#[test]
fn backoff_prefers_retry_after_and_caps_delay() {
    let max_delay = secs(MAX_DELAY_SECS);
    assert_eq!(secs(backoff_delay(0, None)), Duration::from_secs(1));
    assert_eq!(secs(backoff_delay(2, None)), Duration::from_secs(4));
    assert_eq!(secs(backoff_delay(10, None)), max_delay);
    assert_eq!(secs(backoff_delay(0, Some(7))), Duration::from_secs(7));
    assert_eq!(secs(backoff_delay(0, Some(600))), max_delay);
}

#[test]
fn maps_status_codes_to_error_kinds() {
    assert!(matches!(status_error(401, ""), Error::InvalidConfig(_)));
    assert!(matches!(
        status_error(422, "{\"detail\":\"bad\"}"),
        Error::InvalidValue(msg) if msg.contains("bad")
    ));
    assert!(matches!(status_error(429, ""), Error::IoError(_)));
    assert!(is_retryable_status(529));
    assert!(!is_retryable_status(500));
}

#[test]
fn backoff_doubles_then_caps() {
    let delays: Vec<u64> = (0..8).map(|a| backoff_delay(a, None)).collect();
    assert_eq!(delays, vec![1, 2, 4, 8, 16, 30, 30, 30]);
    assert_eq!(backoff_delay(u32::MAX, None), 30);
    assert_eq!(backoff_delay(3, Some(0)), 0);
}

#[test]
fn status_error_messages() {
    assert_eq!(
        status_error(401, ""),
        Error::InvalidConfig("TypeSafe API key was rejected (401 Unauthorized)".to_string())
    );
    assert_eq!(
        status_error(422, "  {\"detail\":\"bad\"}\n"),
        Error::InvalidValue(
            "System One rejected the request (422 Unprocessable Entity): {\"detail\":\"bad\"}"
                .to_string()
        )
    );
    assert_eq!(
        status_error(500, "oops"),
        Error::IoError("System One request failed (500 Internal Server Error): oops".to_string())
    );
    assert_eq!(
        status_error(429, " \t "),
        Error::IoError("System One request failed (429 Too Many Requests)".to_string())
    );
    assert_eq!(
        status_error(599, ""),
        Error::IoError("System One request failed (599 <unknown status code>)".to_string())
    );
}

#[test]
fn status_error_cuts_long_bodies() {
    let body: String = std::iter::repeat('é').take(1005).collect();
    match status_error(500, &body) {
        Error::IoError(m) => {
            let expected = format!(
                "System One request failed (500 Internal Server Error): {}...",
                "é".repeat(1000)
            );
            assert_eq!(m, expected);
        }
        other => panic!("unexpected {other:?}"),
    }
}

#[test]
fn status_display_matches_http() {
    assert_eq!(status_display(429), "429 Too Many Requests");
    assert_eq!(status_display(200), "200 OK");
    assert_eq!(status_display(999), "999 <unknown status code>");
}

#[test]
fn retry_after_header_values() {
    assert_eq!(parse_retry_after(None), None);
    assert_eq!(parse_retry_after(Some(b"10")), Some(10));
    assert_eq!(parse_retry_after(Some(b" \t120 ")), Some(120));
    assert_eq!(parse_retry_after(Some(b"+5")), Some(5));
    assert_eq!(parse_retry_after(Some(b"007")), Some(7));
    assert_eq!(parse_retry_after(Some(b"")), None);
    assert_eq!(parse_retry_after(Some(b"+")), None);
    assert_eq!(parse_retry_after(Some(b"-1")), None);
    assert_eq!(parse_retry_after(Some(b"1.5")), None);
    assert_eq!(parse_retry_after(Some(b"Wed, 21 Oct 2015 07:28:00 GMT")), None);
    assert_eq!(parse_retry_after(Some(b"18446744073709551615")), Some(u64::MAX));
    assert_eq!(parse_retry_after(Some(b"18446744073709551616")), None);
    assert_eq!(parse_retry_after(Some(b"1\n")), None);
    assert_eq!(parse_retry_after(Some(&[0x31, 0xff])), None);
}

fn failure(status: u16, retry_after: Option<&[u8]>, body: &str) -> Event {
    Event::FailureRead {
        status,
        retry_after: retry_after.map(|v| v.to_vec()),
        body: body.to_string(),
    }
}

#[test]
fn call_decodes_success() {
    let mut call = SystemOneCall::new("https://x/v1/systemone".to_string());
    assert!(matches!(call.step(Event::Responded { status: 200 }), Action::DecodeBody));
    assert!(matches!(call.step(Event::Responded { status: 503 }), Action::ReadFailure));
    assert_eq!(call.attempt(), 0);
}

#[test]
fn call_retries_overloads_at_most_three_times() {
    let mut call = SystemOneCall::new("https://x/v1/systemone".to_string());
    let mut delays = Vec::new();
    loop {
        match call.step(failure(529, None, "busy")) {
            Action::Retry { delay_secs } => delays.push(delay_secs),
            Action::Fail(e) => {
                assert_eq!(
                    e,
                    Error::IoError("System One request failed (529 <unknown status code>): busy".to_string())
                );
                break;
            }
            other => panic!("unexpected {other:?}"),
        }
    }
    assert_eq!(delays, vec![1, 2, 4]);
    assert_eq!(call.attempt(), MAX_RETRIES);
}

#[test]
fn call_honours_retry_after() {
    let mut call = SystemOneCall::new("u".to_string());
    assert!(matches!(
        call.step(failure(429, Some(b"7"), "")),
        Action::Retry { delay_secs: 7 }
    ));
    assert!(matches!(
        call.step(failure(429, Some(b"600"), "")),
        Action::Retry { delay_secs: 30 }
    ));
    assert!(matches!(
        call.step(failure(429, Some(b"soon"), "")),
        Action::Retry { delay_secs: 4 }
    ));
    assert!(matches!(call.step(failure(429, Some(b"1"), "")), Action::Fail(Error::IoError(_))));
}

#[test]
fn call_fails_at_once_on_other_statuses() {
    let mut call = SystemOneCall::new("u".to_string());
    assert!(matches!(
        call.step(failure(401, None, "")),
        Action::Fail(Error::InvalidConfig(_))
    ));
    assert!(matches!(
        call.step(failure(422, None, "bad")),
        Action::Fail(Error::InvalidValue(m)) if m.ends_with(": bad")
    ));
    assert!(matches!(call.step(failure(500, None, "")), Action::Fail(Error::IoError(_))));
    assert_eq!(call.attempt(), 0);
}

#[test]
fn call_retries_unreachable_endpoint() {
    let mut call = SystemOneCall::new("https://api/v1/systemone".to_string());
    for expected in [1, 2, 4] {
        match call.step(Event::Unreachable { detail: "timed out".to_string() }) {
            Action::Retry { delay_secs } => assert_eq!(delay_secs, expected),
            other => panic!("unexpected {other:?}"),
        }
    }
    match call.step(Event::Unreachable { detail: "timed out".to_string() }) {
        Action::Fail(e) => assert_eq!(
            e,
            Error::IoError(
                "System One is not reachable at https://api/v1/systemone: timed out".to_string()
            )
        ),
        other => panic!("unexpected {other:?}"),
    }
}

#[test]
fn call_fails_on_request_error() {
    let mut call = SystemOneCall::new("u".to_string());
    match call.step(Event::RequestFailed { detail: "builder error".to_string() }) {
        Action::Fail(e) => assert_eq!(
            e,
            Error::IoError("System One request error: builder error".to_string())
        ),
        other => panic!("unexpected {other:?}"),
    }
    assert_eq!(
        decode_error("eof"),
        Error::IoError("System One response parse error: eof".to_string())
    );
}
