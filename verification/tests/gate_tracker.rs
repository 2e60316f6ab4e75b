use nx_k8s_cache::auth::{AuthOutcome, RequestHeaders};
use nx_k8s_cache::cache::errors::CacheError;
use nx_k8s_cache::config::SecurityLevel;
use nx_k8s_cache::gate::{
    check_hash, content_length_reply, get_reply, is_valid_hash, put_reply, rate_limit_reply,
    AccessPolicy, Admission, AuthStep, AuthVerdict, Op, OpResult, Reply, ReplyBody,
};
use nx_k8s_cache::tracker::{FailureTracker, IpKey, RATE_WINDOW_NANOS};

fn headers(auth: Option<&str>, len: Option<&str>) -> RequestHeaders {
    RequestHeaders {
        authorization: auth.map(|a| a.as_bytes().to_vec()),
        content_length: len.map(|l| l.as_bytes().to_vec()),
    }
}

fn policy(level: SecurityLevel, k8s: bool) -> AccessPolicy {
    AccessPolicy {
        access_token: "secret".to_string(),
        security: level,
        tracks_failures: level == SecurityLevel::Paranoid,
        has_k8s_client: k8s,
        allowed_namespaces: vec![],
    }
}

#[test]
fn hash_validation() {
    assert!(is_valid_hash("0123456789abcdefABCDEF"));
    assert!(is_valid_hash(&"a".repeat(128)));
    assert!(!is_valid_hash(&"a".repeat(129)));
    assert!(!is_valid_hash(""));
    assert!(!is_valid_hash("../etc/passwd"));
    assert!(!is_valid_hash("abc.sha256"));
    assert!(!is_valid_hash("abcg"));
    assert!(!is_valid_hash("ａｂ"));
    assert_eq!(
        check_hash(Op::Put, "xyz"),
        Some(Reply { status: 400, body: ReplyBody::InvalidHash, op: Op::Put, result: OpResult::Invalid })
    );
    assert_eq!(check_hash(Op::Get, "abc"), None);
    assert_eq!(ReplyBody::InvalidHash.text(), Some("Invalid cache hash"));
}

#[test]
fn open_level_lets_everyone_in() {
    let p = policy(SecurityLevel::Open, false);
    assert!(matches!(p.begin_auth(&headers(None, None)), AuthStep::Decided(AuthOutcome::Allowed)));
}

#[test]
fn static_token_replies() {
    let p = policy(SecurityLevel::Standard, false);
    let step = p.begin_auth(&headers(None, None));
    let outcome = match step {
        AuthStep::Decided(o) => o,
        _ => panic!(),
    };
    match p.auth_verdict(Op::Get, &outcome) {
        AuthVerdict::Reject { reply, record_failure } => {
            assert_eq!(reply.status, 401);
            assert_eq!(reply.body.text(), Some("Missing authorization header"));
            assert_eq!(reply.result.label(), "unauthorized");
            assert!(!record_failure);
        }
        _ => panic!(),
    }
    let outcome = match p.begin_auth(&headers(Some("Bearer nope"), None)) {
        AuthStep::Decided(o) => o,
        _ => panic!(),
    };
    match p.auth_verdict(Op::Put, &outcome) {
        AuthVerdict::Reject { reply, record_failure } => {
            assert_eq!((reply.status, reply.op, reply.result), (403, Op::Put, OpResult::Forbidden));
            assert!(!record_failure);
        }
        _ => panic!(),
    }
    let outcome = match p.begin_auth(&headers(Some("Bearer secret"), None)) {
        AuthStep::Decided(o) => o,
        _ => panic!(),
    };
    assert!(matches!(p.auth_verdict(Op::Put, &outcome), AuthVerdict::Pass));
}

#[test]
fn paranoid_level_reviews_tokens() {
    let p = policy(SecurityLevel::Paranoid, true);
    match p.begin_auth(&headers(Some("Bearer jwt.token"), None)) {
        AuthStep::ReviewToken(t) => assert_eq!(t, "jwt.token"),
        _ => panic!(),
    }
    assert!(matches!(
        p.begin_auth(&headers(None, None)),
        AuthStep::Decided(AuthOutcome::Unauthorized)
    ));
    match p.auth_verdict(Op::Get, &AuthOutcome::Forbidden) {
        AuthVerdict::Reject { reply, record_failure } => {
            assert_eq!(reply.status, 403);
            assert!(record_failure);
        }
        _ => panic!(),
    }
    match p.auth_verdict(Op::Get, &AuthOutcome::ApiError("down".into())) {
        AuthVerdict::Reject { reply, record_failure } => {
            assert_eq!((reply.status, reply.result), (503, OpResult::Error));
            assert!(!record_failure);
        }
        _ => panic!(),
    }
    let no_client = policy(SecurityLevel::Paranoid, false);
    match no_client.begin_auth(&headers(Some("Bearer t"), None)) {
        AuthStep::Decided(AuthOutcome::ApiError(m)) => assert_eq!(m, "k8s client not initialised"),
        _ => panic!(),
    }
}

#[test]
fn content_length_checks() {
    let h = |v: &str| headers(None, Some(v));
    let mismatch = Some(Reply {
        status: 400,
        body: ReplyBody::ContentLengthMismatch,
        op: Op::Put,
        result: OpResult::Invalid,
    });
    assert_eq!(content_length_reply(SecurityLevel::Hardened, &h("10"), 9), mismatch);
    assert_eq!(content_length_reply(SecurityLevel::Paranoid, &h("10"), 9), mismatch);
    assert_eq!(content_length_reply(SecurityLevel::Hardened, &h("10"), 10), None);
    assert_eq!(content_length_reply(SecurityLevel::Standard, &h("10"), 9), None);
    assert_eq!(content_length_reply(SecurityLevel::Hardened, &h("ten"), 9), None);
    assert_eq!(content_length_reply(SecurityLevel::Hardened, &h(" 10"), 9), None);
    assert_eq!(content_length_reply(SecurityLevel::Hardened, &headers(None, None), 9), None);
    let bad = RequestHeaders { authorization: None, content_length: Some(vec![0xff]) };
    assert_eq!(content_length_reply(SecurityLevel::Hardened, &bad, 9), None);
}

#[test]
fn store_result_replies() {
    assert_eq!(put_reply(&Ok(())).status, 200);
    assert_eq!(put_reply(&Ok(())).result, OpResult::Stored);
    assert_eq!(put_reply(&Err(CacheError::AlreadyExists("a".into()))).status, 409);
    assert_eq!(put_reply(&Err(CacheError::Io("x".into()))).result, OpResult::Error);
    assert_eq!(get_reply(&Ok(())).body, ReplyBody::Artifact);
    assert_eq!(get_reply(&Err(CacheError::NotFound("a".into()))).status, 404);
    assert_eq!(get_reply(&Err(CacheError::Corrupted("a".into()))).result, OpResult::Corrupted);
    assert_eq!(get_reply(&Err(CacheError::ObjectStore("a".into()))).result, OpResult::Error);
    assert_eq!(rate_limit_reply(Op::Get, true).unwrap().status, 429);
    assert_eq!(rate_limit_reply(Op::Get, false), None);
}

#[test]
fn ten_failures_limit_an_address() {
    let ip = IpKey::V4(0x0a000001);
    let other = IpKey::V6(1);
    let mut t = FailureTracker::new();
    let now = 1_000;
    for i in 0..10 {
        assert!(!t.is_rate_limited(ip, now), "after {i}");
        assert!(t.can_record(ip, now));
        t.record_failure(ip, now);
    }
    assert!(t.is_rate_limited(ip, now));
    assert!(t.is_rate_limited(ip, now + RATE_WINDOW_NANOS - 1));
    assert!(!t.is_rate_limited(ip, now + RATE_WINDOW_NANOS));
    assert!(!t.is_rate_limited(other, now));
    assert_eq!(t.failures(ip), Some((10, now)));
    // A failure after the window starts a new one.
    t.record_failure(ip, now + RATE_WINDOW_NANOS);
    assert_eq!(t.failures(ip), Some((1, now + RATE_WINDOW_NANOS)));
    assert_eq!(t.len(), 1);
}

#[test]
fn expired_addresses_are_dropped_past_the_limit() {
    let mut t = FailureTracker::new();
    for i in 0..10_000u32 {
        t.record_failure(IpKey::V4(i), 0);
    }
    assert_eq!(t.len(), 10_000);
    // The next address overflows the table at a time where all others expired.
    t.record_failure(IpKey::V4(10_000), RATE_WINDOW_NANOS);
    assert_eq!(t.len(), 1);
    assert_eq!(t.failures(IpKey::V4(0)), None);
    assert_eq!(t.failures(IpKey::V4(10_000)), Some((1, RATE_WINDOW_NANOS)));
}

#[test]
fn request_checks_run_in_order() {
    let p = policy(SecurityLevel::Paranoid, true);
    let h = headers(Some("Bearer sa-token"), None);
    // A malformed hash is turned away before the failure count is consulted.
    match p.gate_request(Op::Get, "../x", &h, 0, None, None) {
        Admission::Reject { reply, record_failure } => {
            assert_eq!(reply.status, 400);
            assert_eq!(reply.body, ReplyBody::InvalidHash);
            assert!(!record_failure);
        }
        _ => panic!("expected a rejection"),
    }
    // Then the address's failure count is asked for.
    assert!(matches!(p.gate_request(Op::Get, "ab12", &h, 0, None, None), Admission::AskRateLimit));
    // An address over its limit gets 429 before any token review.
    match p.gate_request(Op::Get, "ab12", &h, 0, Some(true), None) {
        Admission::Reject { reply, .. } => {
            assert_eq!(reply.status, 429);
            assert_eq!(reply.result, OpResult::RateLimited);
        }
        _ => panic!("expected 429"),
    }
    // Under the limit, the bearer token goes to a review.
    match p.gate_request(Op::Get, "ab12", &h, 0, Some(false), None) {
        Admission::ReviewToken(t) => assert_eq!(t, "sa-token"),
        _ => panic!("expected a token review"),
    }
    // A refused review is a counted 403; an allowed one lets the request in.
    match p.gate_request(Op::Get, "ab12", &h, 0, Some(false), Some(&AuthOutcome::Forbidden)) {
        Admission::Reject { reply, record_failure } => {
            assert_eq!(reply.status, 403);
            assert!(record_failure);
        }
        _ => panic!("expected 403"),
    }
    assert!(matches!(
        p.gate_request(Op::Get, "ab12", &h, 0, Some(false), Some(&AuthOutcome::Allowed)),
        Admission::Proceed
    ));
}

#[test]
fn request_checks_at_static_levels() {
    let p = policy(SecurityLevel::Hardened, false);
    // No failure tracking below Paranoid: authentication comes right after the hash.
    match p.gate_request(Op::Put, "ab12", &headers(None, Some("3")), 3, None, None) {
        Admission::Reject { reply, record_failure } => {
            assert_eq!(reply.status, 401);
            assert!(!record_failure);
        }
        _ => panic!("expected 401"),
    }
    match p.gate_request(Op::Put, "ab12", &headers(Some("Bearer nope"), Some("3")), 3, None, None) {
        Admission::Reject { reply, record_failure } => {
            assert_eq!(reply.status, 403);
            assert!(!record_failure);
        }
        _ => panic!("expected 403"),
    }
    // The declared length is checked for uploads only, after authentication.
    let good = headers(Some("Bearer secret"), Some("4"));
    match p.gate_request(Op::Put, "ab12", &good, 3, None, None) {
        Admission::Reject { reply, .. } => {
            assert_eq!(reply.status, 400);
            assert_eq!(reply.body, ReplyBody::ContentLengthMismatch);
        }
        _ => panic!("expected a length mismatch"),
    }
    assert!(matches!(p.gate_request(Op::Get, "ab12", &good, 0, None, None), Admission::Proceed));
    assert!(matches!(p.gate_request(Op::Put, "ab12", &good, 4, None, None), Admission::Proceed));
    // Paranoid without a client: the backend cannot answer.
    let q = policy(SecurityLevel::Paranoid, false);
    match q.gate_request(Op::Get, "ab12", &good, 0, Some(false), None) {
        Admission::Reject { reply, .. } => assert_eq!(reply.status, 503),
        _ => panic!("expected 503"),
    }
}

#[test]
fn v4_and_v6_addresses_are_tracked_apart() {
    let mut t = FailureTracker::new();
    for _ in 0..10 {
        t.record_failure(IpKey::V4(1), 5);
    }
    t.record_failure(IpKey::V6(1), 5);
    assert_eq!(t.len(), 2);
    assert!(t.is_rate_limited(IpKey::V4(1), 5));
    assert!(!t.is_rate_limited(IpKey::V6(1), 5));
    assert_eq!(t.failures(IpKey::V6(1)), Some((1, 5)));
}

#[test]
fn failures_spread_over_the_window_limit_an_address() {
    let ip = IpKey::V6(42);
    let mut t = FailureTracker::new();
    let first = 7_000;
    let step = RATE_WINDOW_NANOS / 10;
    for i in 0..10u64 {
        assert!(!t.is_rate_limited(ip, first + i * step));
        t.record_failure(ip, first + i * step);
    }
    // The tenth failure came just before the window's end.
    assert!(t.is_rate_limited(ip, first + 9 * step));
    assert!(t.is_rate_limited(ip, first + RATE_WINDOW_NANOS - 1));
    assert!(!t.is_rate_limited(ip, first + RATE_WINDOW_NANOS));
    assert!(!t.is_rate_limited(IpKey::V6(43), first + 9 * step));
}
