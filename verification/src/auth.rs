//! Authentication of cache requests: bearer tokens, static token checks and
//! the reading of Kubernetes token reviews.
use vstd::prelude::*;
use subtle::ConstantTimeEq;
use crate::config::SecurityLevel;
use crate::k8s::ReviewOutcome;
use crate::text::{ascii_chars, ascii_string};

verus! {

/// The result of an authentication check.
pub enum AuthOutcome {
    Allowed,
    /// token missing
    Unauthorized,
    /// token present but wrong / wrong namespace
    Forbidden,
    /// k8s API unreachable (paranoid only)
    ApiError(String),
}

/// An `AuthOutcome` with its message as characters.
pub enum AuthOutcomeView {
    Allowed,
    Unauthorized,
    Forbidden,
    ApiError(Seq<char>),
}

impl View for AuthOutcome {
    type V = AuthOutcomeView;

    open spec fn view(&self) -> AuthOutcomeView {
        match self {
            AuthOutcome::Allowed => AuthOutcomeView::Allowed,
            AuthOutcome::Unauthorized => AuthOutcomeView::Unauthorized,
            AuthOutcome::Forbidden => AuthOutcomeView::Forbidden,
            AuthOutcome::ApiError(m) => AuthOutcomeView::ApiError(m@),
        }
    }
}

/// The outcome of the static token check at `level`: `Open` allows every
/// request; at the other levels a missing token is `Unauthorized`, the
/// expected token `Allowed`, any other `Forbidden`.
pub open spec fn static_outcome(token: Option<Seq<char>>, expected: Seq<char>, level: SecurityLevel) -> AuthOutcomeView {
    if level == SecurityLevel::Open {
        AuthOutcomeView::Allowed
    } else {
        match token {
            None => AuthOutcomeView::Unauthorized,
            Some(t) => if t == expected {
                AuthOutcomeView::Allowed
            } else {
                AuthOutcomeView::Forbidden
            },
        }
    }
}

/// The request headers that the server reads, as raw bytes: the first value of
/// each, `None` where the request has none.
pub struct RequestHeaders {
    /// `Authorization`
    pub authorization: Option<Vec<u8>>,
    /// `Content-Length`
    pub content_length: Option<Vec<u8>>,
}

/// Whether a header byte is visible ASCII or a tab.
pub open spec fn is_visible(b: u8) -> bool {
    (32 <= b && b < 127) || b == 9
}

/// The text of a header value, as `HeaderValue::to_str` gives it: present
/// exactly when every byte is visible ASCII or a tab.
pub open spec fn header_text(value: Seq<u8>) -> Option<Seq<char>> {
    if forall|i: int| 0 <= i < value.len() ==> is_visible(#[trigger] value[i]) {
        Some(ascii_chars(value))
    } else {
        None
    }
}

/// The bare token of an `Authorization: Bearer <token>` header: the text after
/// the exact prefix `Bearer `, where that text is not empty.
pub open spec fn bearer_token(authorization: Option<Seq<u8>>) -> Option<Seq<char>> {
    match authorization {
        None => None,
        Some(value) => match header_text(value) {
            None => None,
            Some(t) => if t.len() > 7 && t.take(7) == "Bearer "@ {
                Some(t.skip(7))
            } else {
                None
            },
        },
    }
}

impl RequestHeaders {
    pub open spec fn authorization_bytes(&self) -> Option<Seq<u8>> {
        match self.authorization {
            Some(v) => Some(v@),
            None => None,
        }
    }

    pub open spec fn content_length_bytes(&self) -> Option<Seq<u8>> {
        match self.content_length {
            Some(v) => Some(v@),
            None => None,
        }
    }
}

/// Whether every byte of `value` is visible ASCII or a tab.
pub fn is_header_text(value: &[u8]) -> (r: bool)
    ensures
        r == header_text(value@) is Some,
{
    let n = value.len();
    let mut i: usize = 0;
    while i < n
        invariant
            n == value@.len(),
            i <= n,
            forall|j: int| 0 <= j < i ==> is_visible(#[trigger] value@[j]),
        decreases n - i,
    {
        let b = value[i];
        if !((32 <= b && b < 127) || b == 9) {
            return false;
        }
        i = i + 1;
    }
    true
}

/// Extracts the bare token from `Authorization: Bearer <token>`.
pub fn extract_token(headers: &RequestHeaders) -> (r: Option<String>)
    ensures
        match bearer_token(headers.authorization_bytes()) {
            None => r is None,
            Some(t) => r matches Some(s) && s@ == t,
        },
{
    let value = match &headers.authorization {
        None => {
            return None;
        },
        Some(v) => v,
    };
    if !is_header_text(value.as_slice()) {
        return None;
    }
    let n = value.len();
    proof {
        reveal_strlit("Bearer ");
    }
    let ghost t = ascii_chars(value@);
    if n <= 7 {
        return None;
    }
    let prefix_ok = value[0] == 66 && value[1] == 101 && value[2] == 97 && value[3] == 114
        && value[4] == 101 && value[5] == 114 && value[6] == 32;
    if !prefix_ok {
        proof {
            let p = "Bearer "@;
            assert(p[0] == 'B' && p[1] == 'e' && p[2] == 'a' && p[3] == 'r' && p[4] == 'e' && p[5]
                == 'r' && p[6] == ' ');
            if t.take(7) == p {
                assert(t[0] == value@[0] as char);
                assert(t[1] == value@[1] as char);
                assert(t[2] == value@[2] as char);
                assert(t[3] == value@[3] as char);
                assert(t[4] == value@[4] as char);
                assert(t[5] == value@[5] as char);
                assert(t[6] == value@[6] as char);
                assert(false);
            }
        }
        return None;
    }
    let mut rest: Vec<u8> = Vec::new();
    let mut i: usize = 7;
    while i < n
        invariant
            n == value@.len(),
            7 <= i <= n,
            rest@ == value@.subrange(7, i as int),
        decreases n - i,
    {
        rest.push(value[i]);
        proof {
            assert(rest@ =~= value@.subrange(7, i + 1));
        }
        i = i + 1;
    }
    proof {
        assert(t.take(7) =~= "Bearer "@);
        assert(rest@.len() > 0);
        assert forall|j: int| 0 <= j < rest@.len() implies #[trigger] rest@[j] < 128 by {
            assert(rest@[j] == value@[7 + j]);
            assert(is_visible(value@[7 + j]));
        }
    }
    let token = ascii_string(rest.as_slice());
    assert(token@ =~= t.skip(7));
    Some(token)
}

/// The outcome of a static token check.
pub open spec fn static_auth_allows(token: Option<Seq<char>>, expected: Seq<char>) -> bool {
    match token {
        Some(t) => t == expected,
        None => false,
    }
}

/// Calls `subtle::ConstantTimeEq::ct_eq` on two byte slices: true exactly
/// when the slices are equal (the call compares lengths first, then every
/// byte in time independent of the contents).
#[verifier::external_body]
fn constant_time_eq(a: &[u8], b: &[u8]) -> (r: bool)
    ensures
        r == (a@ == b@),
{
    a.ct_eq(b).into()
}

/// Static token check for Standard / Hardened levels.
/// - Standard  → plain `==` (convenient)
/// - Hardened  → constant-time comparison (timing-safe)
///
/// Both comparisons give the same answer: `Open` allows every request; at the
/// other levels a missing token is `Unauthorized`, the expected token
/// `Allowed`, any other `Forbidden`.
pub fn check_static_auth(headers: &RequestHeaders, expected: &str, level: SecurityLevel) -> (r:
    AuthOutcome)
    ensures
        r@ == static_outcome(bearer_token(headers.authorization_bytes()), expected@, level),
{
    if level == SecurityLevel::Open {
        return AuthOutcome::Allowed;
    }
    match extract_token(headers) {
        None => AuthOutcome::Unauthorized,
        Some(token) => {
            let valid = if level.at_least(SecurityLevel::Hardened) {
                let a = token.as_str().as_bytes();
                let b = expected.as_bytes();
                let same = constant_time_eq(a, b);
                proof {
                    if same {
                        vstd::utf8::encode_utf8_decode_utf8(token@);
                        vstd::utf8::encode_utf8_decode_utf8(expected@);
                    }
                }
                same
            } else {
                token == expected.to_string()
            };
            if valid {
                AuthOutcome::Allowed
            } else {
                AuthOutcome::Forbidden
            }
        },
    }
}

/// What a token review means for the request: an accepted caller is
/// `Allowed`; a caller from a namespace outside the allowlist, and a token the
/// API rejected, `Forbidden`; an unreachable API stays an `ApiError`.
pub fn auth_outcome_from_review(review: ReviewOutcome) -> (r: AuthOutcome)
    ensures
        match review {
            ReviewOutcome::Allowed { .. } => r is Allowed,
            ReviewOutcome::ForbiddenNamespace { .. } => r is Forbidden,
            ReviewOutcome::Unauthenticated => r is Forbidden,
            ReviewOutcome::ApiError(e) => r matches AuthOutcome::ApiError(m) && m@ == e@,
        },
{
    match review {
        ReviewOutcome::Allowed { .. } => AuthOutcome::Allowed,
        ReviewOutcome::ForbiddenNamespace { .. } => AuthOutcome::Forbidden,
        ReviewOutcome::Unauthenticated => AuthOutcome::Forbidden,
        ReviewOutcome::ApiError(e) => AuthOutcome::ApiError(e),
    }
}

} // verus!
