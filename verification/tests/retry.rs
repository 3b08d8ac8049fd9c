use axum_reverse_proxy::forward::{conclude, Outcome, UpstreamEvent};
use axum_reverse_proxy::message::{HttpVersion, ProxyError, RequestHead};
use axum_reverse_proxy::retry::{
    body_unreadable, is_retryable, Buffered, RetryStep, DEFAULT_MAX_BUFFER_BYTES,
};
use axum_reverse_proxy::{ProxyPolicy, RetryLayer};
use std::time::Duration;

fn failure(is_connect: bool) -> ProxyError {
    let event = UpstreamEvent::Failed { chain: vec!["refused".to_string()], is_connect };
    match conclude(event, &ProxyPolicy::default()) {
        Outcome::Answer(answer) => answer.error.unwrap(),
        Outcome::Relay { .. } => panic!("relayed"),
    }
}

/// How often a request is sent where the first `failures` attempts fail to connect.
fn times_sent(layer: &RetryLayer, failures: usize) -> usize {
    let retry = layer.layer(());
    if retry.start().is_none() {
        return 1;
    }
    let mut attempts = retry.attempts();
    let mut sent = 0;
    loop {
        sent += 1;
        let error = if sent <= failures { Some(failure(true)) } else { None };
        match attempts.on_answer(is_retryable(error.as_ref())) {
            RetryStep::Finish => return sent,
            RetryStep::RetryAfter(_) => {}
        }
    }
}

#[test]
fn test_no_retry_by_default() {
    // The proxy itself answers a failure with a 502, once and for all.
    let event = UpstreamEvent::Failed { chain: vec!["refused".to_string()], is_connect: true };
    match conclude(event, &ProxyPolicy::default()) {
        Outcome::Answer(answer) => assert_eq!(answer.status, 502),
        Outcome::Relay { .. } => panic!("relayed"),
    }
}

#[test]
fn test_retry_layer() {
    assert_eq!(times_sent(&RetryLayer::new(5), 1), 2);
    assert_eq!(times_sent(&RetryLayer::new(5), 4), 5);
    assert_eq!(times_sent(&RetryLayer::new(5), 50), 5);
    assert_eq!(times_sent(&RetryLayer::new(5), 0), 1);
}

#[test]
fn test_retry_layer_zero_attempts() {
    assert_eq!(times_sent(&RetryLayer::new(0), 3), 1);
    assert!(RetryLayer::new(0).layer(()).start().is_none());
    assert!(RetryLayer::new(1).layer(()).start().is_none());
    assert!(RetryLayer::new(2).layer(()).start().is_some());
}

#[test]
fn test_retry_replays_full_post_body() {
    let payload = "x".repeat(64 * 1024).into_bytes();
    let mut buffer = RetryLayer::new(5).layer(()).start().unwrap();
    for chunk in payload.chunks(1000) {
        assert!(matches!(buffer.add_chunk(chunk.to_vec()), Buffered::Kept));
    }
    let body = buffer.finish();
    assert_eq!(body, payload);

    let mut headers = http::HeaderMap::new();
    headers.append("x-a", "1".parse().unwrap());
    headers.append("x-a", "2".parse().unwrap());
    let head = RequestHead {
        method: "POST".to_string(),
        scheme: Some("http".to_string()),
        authority: Some("example.com".to_string()),
        path_and_query: "/echo?q=1".to_string(),
        version: HttpVersion::Http2,
        headers: headers.clone(),
        client_address: Some("192.0.2.1".to_string()),
    };
    let mut replay = RetryLayer::new(3).layer(()).replay(head, body);
    let mut sent = 0;
    loop {
        let (head, body) = replay.request();
        sent += 1;
        assert_eq!(head.method, "POST");
        assert_eq!(head.scheme.as_deref(), Some("http"));
        assert_eq!(head.authority.as_deref(), Some("example.com"));
        assert_eq!(head.path_and_query, "/echo?q=1");
        assert_eq!(head.version, HttpVersion::Http2);
        assert_eq!(head.headers, headers);
        assert_eq!(head.client_address.as_deref(), Some("192.0.2.1"));
        assert_eq!(body, payload);
        match replay.on_answer(true) {
            RetryStep::RetryAfter(delay) => assert_eq!(delay, Duration::from_millis(500)),
            RetryStep::Finish => break,
        }
    }
    assert_eq!(sent, 3);
}

#[test]
fn test_no_retry_on_upstream_502() {
    // A 502 that the upstream returned carries no error.
    let event = UpstreamEvent::Responded {
        status: 502,
        version: HttpVersion::Http11,
        headers: http::HeaderMap::new(),
    };
    match conclude(event, &ProxyPolicy::default()) {
        Outcome::Relay { status, .. } => assert_eq!(status, 502),
        Outcome::Answer(_) => panic!("not relayed"),
    }
    assert!(!is_retryable(None));
    assert!(!is_retryable(Some(&failure(false))));
    assert!(is_retryable(Some(&failure(true))));
    let mut attempts = RetryLayer::new(5).layer(()).attempts();
    assert!(matches!(attempts.on_answer(is_retryable(None)), RetryStep::Finish));
}

#[test]
fn delay_is_half_a_second_unless_set() {
    let mut attempts = RetryLayer::new(3).layer(()).attempts();
    match attempts.on_answer(true) {
        RetryStep::RetryAfter(delay) => assert_eq!(delay, Duration::from_millis(500)),
        RetryStep::Finish => panic!("finished"),
    }
    let layer = RetryLayer::with_delay(3, Duration::from_millis(7));
    let mut attempts = layer.clone().layer(()).attempts();
    match attempts.on_answer(true) {
        RetryStep::RetryAfter(delay) => assert_eq!(delay, Duration::from_millis(7)),
        RetryStep::Finish => panic!("finished"),
    }
}

#[test]
fn larger_bodies_are_handed_back_whole() {
    let mut buffer = RetryLayer::new(3).with_max_buffer_bytes(4).layer("inner").start().unwrap();
    assert!(matches!(buffer.add_chunk(vec![1, 2, 3]), Buffered::Kept));
    match buffer.add_chunk(vec![4, 5]) {
        Buffered::TooLarge { prefix, chunk } => {
            assert_eq!(prefix, vec![1, 2, 3]);
            assert_eq!(chunk, vec![4, 5]);
        }
        Buffered::Kept => panic!("kept"),
    }
    assert_eq!(DEFAULT_MAX_BUFFER_BYTES, 2 * 1024 * 1024);
    let retry = RetryLayer::new(3).layer("inner");
    assert_eq!(*retry.inner(), "inner");
    let mut buffer = retry.start().unwrap();
    assert!(matches!(buffer.add_chunk(vec![0; DEFAULT_MAX_BUFFER_BYTES]), Buffered::Kept));
    assert!(matches!(buffer.add_chunk(vec![0]), Buffered::TooLarge { .. }));
}

#[test]
fn unreadable_bodies_are_bad_requests() {
    let answer = body_unreadable();
    assert_eq!(answer.status, 400);
    assert_eq!(answer.body, "Failed to read request body");
    assert!(answer.error.is_none());
}
