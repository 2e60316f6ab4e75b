use nx_k8s_cache::auth::{
    auth_outcome_from_review, check_static_auth, extract_token, AuthOutcome, RequestHeaders,
};
use nx_k8s_cache::config::SecurityLevel;
use nx_k8s_cache::k8s::{
    assert_in_cluster, parse_service_account, resolve_server_namespace, review_outcome,
    sa_namespace_path, sa_token_path, ReviewOutcome, TokenReviewStatus,
};

fn bearer(v: &str) -> RequestHeaders {
    RequestHeaders { authorization: Some(v.as_bytes().to_vec()), content_length: None }
}

fn none() -> RequestHeaders {
    RequestHeaders { authorization: None, content_length: None }
}

#[test]
fn token_extraction() {
    assert_eq!(extract_token(&bearer("Bearer abc")), Some("abc".to_string()));
    assert_eq!(extract_token(&bearer("Bearer a b\tc")), Some("a b\tc".to_string()));
    assert_eq!(extract_token(&bearer("Bearer ")), None);
    assert_eq!(extract_token(&bearer("bearer abc")), None);
    assert_eq!(extract_token(&bearer("Basic abc")), None);
    assert_eq!(extract_token(&none()), None);
    // Header values that are not visible ASCII are not text.
    let h = RequestHeaders { authorization: Some(b"Bearer \xff\xfe".to_vec()), content_length: None };
    assert_eq!(extract_token(&h), None);
    let h = RequestHeaders { authorization: Some(b"Bearer a\x01".to_vec()), content_length: None };
    assert_eq!(extract_token(&h), None);
}

#[test]
fn static_auth_at_each_level() {
    let right = bearer("Bearer secret");
    let wrong = bearer("Bearer secreT");
    for level in [SecurityLevel::Standard, SecurityLevel::Hardened, SecurityLevel::Paranoid] {
        assert!(matches!(check_static_auth(&right, "secret", level), AuthOutcome::Allowed));
        assert!(matches!(check_static_auth(&wrong, "secret", level), AuthOutcome::Forbidden));
        assert!(matches!(check_static_auth(&none(), "secret", level), AuthOutcome::Unauthorized));
        // A prefix of the token is not the token.
        assert!(matches!(
            check_static_auth(&bearer("Bearer secre"), "secret", level),
            AuthOutcome::Forbidden
        ));
    }
    assert!(matches!(check_static_auth(&none(), "secret", SecurityLevel::Open), AuthOutcome::Allowed));
    assert!(matches!(check_static_auth(&wrong, "secret", SecurityLevel::Open), AuthOutcome::Allowed));
}

#[test]
fn review_outcomes() {
    let allowed = vec!["ci".to_string(), "build".to_string()];
    let st = |auth: Option<bool>, user: Option<&str>| {
        Ok(Some(TokenReviewStatus { authenticated: auth, username: user.map(|u| u.to_string()) }))
    };
    match review_outcome(st(Some(true), Some("system:serviceaccount:ci:runner")), &allowed) {
        ReviewOutcome::Allowed { namespace, service_account } => {
            assert_eq!(namespace, "ci");
            assert_eq!(service_account, "runner");
        }
        _ => panic!("expected allowed"),
    }
    match review_outcome(st(Some(true), Some("system:serviceaccount:prod:x")), &allowed) {
        ReviewOutcome::ForbiddenNamespace { namespace } => assert_eq!(namespace, "prod"),
        _ => panic!("expected forbidden namespace"),
    }
    match review_outcome(st(Some(true), Some("system:serviceaccount:prod:x")), &[]) {
        ReviewOutcome::Allowed { namespace, .. } => assert_eq!(namespace, "prod"),
        _ => panic!("an empty allowlist lets every namespace in"),
    }
    assert!(matches!(review_outcome(st(Some(false), Some("system:serviceaccount:ci:r")), &allowed), ReviewOutcome::Unauthenticated));
    assert!(matches!(review_outcome(st(None, None), &allowed), ReviewOutcome::Unauthenticated));
    match review_outcome(st(Some(true), Some("alice")), &allowed) {
        ReviewOutcome::ApiError(m) => {
            assert_eq!(m, "unexpected username format in TokenReview: alice")
        }
        _ => panic!("expected api error"),
    }
    match review_outcome(st(Some(true), None), &allowed) {
        ReviewOutcome::ApiError(m) => assert_eq!(m, "unexpected username format in TokenReview: "),
        _ => panic!("expected api error"),
    }
    match review_outcome(Ok(None), &allowed) {
        ReviewOutcome::ApiError(m) => assert_eq!(m, "empty TokenReview status"),
        _ => panic!("expected api error"),
    }
    match review_outcome(Err("connection refused".to_string()), &allowed) {
        ReviewOutcome::ApiError(m) => assert_eq!(m, "connection refused"),
        _ => panic!("expected api error"),
    }
}

#[test]
fn service_account_names_follow_splitn() {
    let cases = [
        "system:serviceaccount:ci:runner",
        "system:serviceaccount:ci:run:ner",
        "system:serviceaccount::",
        "system:serviceaccount:ci",
        "system:serviceaccounts:ci:x",
        "System:serviceaccount:ci:x",
        "system:serviceaccount",
        "",
    ];
    for u in cases {
        let parts: Vec<&str> = u.splitn(4, ':').collect();
        let expected = if parts.len() == 4 && parts[0] == "system" && parts[1] == "serviceaccount" {
            Some((parts[2].to_string(), parts[3].to_string()))
        } else {
            None
        };
        assert_eq!(parse_service_account(u), expected, "{u}");
    }
}

#[test]
fn review_decides_the_auth_outcome() {
    let a = ReviewOutcome::Allowed { namespace: "ci".into(), service_account: "r".into() };
    assert!(matches!(auth_outcome_from_review(a), AuthOutcome::Allowed));
    let f = ReviewOutcome::ForbiddenNamespace { namespace: "x".into() };
    assert!(matches!(auth_outcome_from_review(f), AuthOutcome::Forbidden));
    assert!(matches!(auth_outcome_from_review(ReviewOutcome::Unauthenticated), AuthOutcome::Forbidden));
    match auth_outcome_from_review(ReviewOutcome::ApiError("down".into())) {
        AuthOutcome::ApiError(m) => assert_eq!(m, "down"),
        _ => panic!(),
    }
}

#[test]
fn cluster_paths_and_namespace() {
    assert_eq!(sa_token_path(None), "/var/run/secrets/kubernetes.io/serviceaccount/token");
    assert_eq!(sa_token_path(Some("/tmp/t".into())), "/tmp/t");
    assert_eq!(sa_namespace_path(None), "/var/run/secrets/kubernetes.io/serviceaccount/namespace");
    // The service account file comes first, the variable second.
    assert_eq!(resolve_server_namespace(Some(" team-a\n".into()), Some("team-b".into())), "team-a");
    assert_eq!(resolve_server_namespace(None, Some("team-b".into())), "team-b");
    assert_eq!(resolve_server_namespace(Some("file-ns".into()), None), "file-ns");
    assert_eq!(resolve_server_namespace(None, None), "default");
    assert_eq!(assert_in_cluster(true, "/t"), Ok(()));
    let m = assert_in_cluster(false, "/t").unwrap_err();
    assert_eq!(
        m,
        "nx-cache-server must run inside a Kubernetes cluster at this security level. \
         Expected KUBERNETES_SERVICE_HOST to be set and a service account token at '/t'.\n\
         Hint: set NX_SA_TOKEN_PATH / NX_SA_NAMESPACE_PATH to override the default paths \
         (useful for testing)."
    );
}
