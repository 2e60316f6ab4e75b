//! What the cache endpoints answer: request validation, the authentication
//! steps and their replies, and the replies to store results.
//!
//! A request to `PUT` or `GET /v1/cache/{hash}` goes through these steps in
//! order, the first that answers ending it: `check_hash`, `rate_limit_reply`
//! (where failures are tracked), `AccessPolicy::begin_auth` with a token
//! review where it asks for one, `AccessPolicy::auth_verdict`, for a `PUT`
//! `content_length_reply`, and finally `put_reply` or `get_reply` on what
//! the store did. Every reply names the counter it increments.
use vstd::prelude::*;
use crate::auth::{
    bearer_token, check_static_auth, extract_token, header_text, is_header_text, static_outcome,
    AuthOutcome, AuthOutcomeView, RequestHeaders,
};
use crate::cache::errors::CacheError;
use crate::config::SecurityLevel;
use crate::text::{ascii_string, parse_unsigned, parse_usize};

verus! {

/// The cache operation a request asks for.
#[derive(Clone, Copy, PartialEq, Eq, Structural, Debug)]
pub enum Op {
    Get,
    Put,
}

/// How a request ended, as counted in `nx_cache_ops_total`.
#[derive(Clone, Copy, PartialEq, Eq, Structural, Debug)]
pub enum OpResult {
    Hit,
    Miss,
    Stored,
    Conflict,
    Forbidden,
    Unauthorized,
    Invalid,
    Error,
    RateLimited,
    Corrupted,
}

impl Op {
    pub open spec fn spec_label(self) -> Seq<char> {
        match self {
            Op::Get => "get"@,
            Op::Put => "put"@,
        }
    }

    /// The `op` label.
    pub fn label(&self) -> (r: &'static str)
        ensures
            r@ == self.spec_label(),
    {
        match self {
            Op::Get => "get",
            Op::Put => "put",
        }
    }
}

impl OpResult {
    pub open spec fn spec_label(self) -> Seq<char> {
        match self {
            OpResult::Hit => "hit"@,
            OpResult::Miss => "miss"@,
            OpResult::Stored => "stored"@,
            OpResult::Conflict => "conflict"@,
            OpResult::Forbidden => "forbidden"@,
            OpResult::Unauthorized => "unauthorized"@,
            OpResult::Invalid => "invalid"@,
            OpResult::Error => "error"@,
            OpResult::RateLimited => "rate_limited"@,
            OpResult::Corrupted => "corrupted"@,
        }
    }

    /// The `result` label.
    pub fn label(&self) -> (r: &'static str)
        ensures
            r@ == self.spec_label(),
    {
        match self {
            OpResult::Hit => "hit",
            OpResult::Miss => "miss",
            OpResult::Stored => "stored",
            OpResult::Conflict => "conflict",
            OpResult::Forbidden => "forbidden",
            OpResult::Unauthorized => "unauthorized",
            OpResult::Invalid => "invalid",
            OpResult::Error => "error",
            OpResult::RateLimited => "rate_limited",
            OpResult::Corrupted => "corrupted",
        }
    }
}

/// The body of a reply.
#[derive(Clone, Copy, PartialEq, Eq, Structural, Debug)]
pub enum ReplyBody {
    Empty,
    InvalidHash,
    MissingAuthorization,
    Forbidden,
    ContentLengthMismatch,
    /// The entry's data, as `application/octet-stream`.
    Artifact,
}

impl ReplyBody {
    pub open spec fn spec_text(self) -> Option<Seq<char>> {
        match self {
            ReplyBody::InvalidHash => Some("Invalid cache hash"@),
            ReplyBody::MissingAuthorization => Some("Missing authorization header"@),
            ReplyBody::Forbidden => Some("Forbidden"@),
            ReplyBody::ContentLengthMismatch => Some("Content-Length mismatch"@),
            _ => None,
        }
    }

    /// The text of a text body.
    pub fn text(&self) -> (r: Option<&'static str>)
        ensures
            match r {
                Some(t) => self.spec_text() == Some(t@),
                None => self.spec_text() is None,
            },
    {
        match self {
            ReplyBody::InvalidHash => Some("Invalid cache hash"),
            ReplyBody::MissingAuthorization => Some("Missing authorization header"),
            ReplyBody::Forbidden => Some("Forbidden"),
            ReplyBody::ContentLengthMismatch => Some("Content-Length mismatch"),
            _ => None,
        }
    }
}

/// An HTTP reply and the counter it increments.
#[derive(Clone, Copy, PartialEq, Eq, Structural, Debug)]
pub struct Reply {
    pub status: u16,
    pub body: ReplyBody,
    pub op: Op,
    pub result: OpResult,
}

pub open spec fn is_hex_digit(c: char) -> bool {
    let u = c as u32;
    (48 <= u <= 57) || (65 <= u <= 70) || (97 <= u <= 102)
}

/// A cache hash: 1 to 128 hexadecimal digits. Such a name holds no `/` or
/// `.`, so it names a file inside the cache directory.
///
/// Every hexadecimal digit is one byte, so counting characters here is
/// counting bytes.
pub open spec fn valid_hash(hash: Seq<char>) -> bool {
    &&& 0 < hash.len() <= 128
    &&& forall|i: int| 0 <= i < hash.len() ==> is_hex_digit(#[trigger] hash[i])
}

/// Hash must be a non-empty hex string, max 128 chars.
/// Prevents path traversal and rejects malformed requests before any I/O.
pub fn is_valid_hash(hash: &str) -> (r: bool)
    ensures
        r == valid_hash(hash@),
{
    let n = hash.unicode_len();
    if n == 0 || n > 128 {
        return false;
    }
    let mut i: usize = 0;
    while i < n
        invariant
            n == hash@.len(),
            0 < n <= 128,
            i <= n,
            forall|j: int| 0 <= j < i ==> is_hex_digit(#[trigger] hash@[j]),
        decreases n - i,
    {
        let u = hash.get_char(i) as u32;
        if !((48 <= u && u <= 57) || (65 <= u && u <= 70) || (97 <= u && u <= 102)) {
            assert(!is_hex_digit(hash@[i as int]));
            return false;
        }
        i = i + 1;
    }
    true
}

/// Turns away a request whose hash is malformed: `400 Invalid cache hash`.
pub fn check_hash(op: Op, hash: &str) -> (r: Option<Reply>)
    ensures
        valid_hash(hash@) ==> r is None,
        !valid_hash(hash@) ==> r == Some(
            Reply { status: 400, body: ReplyBody::InvalidHash, op, result: OpResult::Invalid },
        ),
{
    if is_valid_hash(hash) {
        None
    } else {
        Some(Reply { status: 400, body: ReplyBody::InvalidHash, op, result: OpResult::Invalid })
    }
}

/// Turns away an address over its failure limit: `429`.
pub fn rate_limit_reply(op: Op, limited: bool) -> (r: Option<Reply>)
    ensures
        !limited ==> r is None,
        limited ==> r == Some(
            Reply { status: 429, body: ReplyBody::Empty, op, result: OpResult::RateLimited },
        ),
{
    if limited {
        Some(Reply { status: 429, body: ReplyBody::Empty, op, result: OpResult::RateLimited })
    } else {
        None
    }
}

/// The next step of authentication.
pub enum AuthStep {
    /// The outcome is known.
    Decided(AuthOutcome),
    /// Ask the Kubernetes API to review this service account token, then
    /// read the answer with `k8s::review_outcome` and
    /// `auth::auth_outcome_from_review`.
    ReviewToken(String),
}

pub enum AuthStepView {
    Decided(AuthOutcomeView),
    ReviewToken(Seq<char>),
}

impl View for AuthStep {
    type V = AuthStepView;

    open spec fn view(&self) -> AuthStepView {
        match self {
            AuthStep::Decided(o) => AuthStepView::Decided(o@),
            AuthStep::ReviewToken(t) => AuthStepView::ReviewToken(t@),
        }
    }
}

/// What happens to a request after authentication.
#[derive(PartialEq, Eq, Structural)]
pub enum AuthVerdict {
    Pass,
    /// Answer `reply`; where `record_failure` holds, first count an auth
    /// failure against the client's address.
    Reject { reply: Reply, record_failure: bool },
}

/// Where a request stands before the store.
pub enum Admission {
    /// Answer `reply`; where `record_failure` holds, first count an auth
    /// failure against the client's address.
    Reject { reply: Reply, record_failure: bool },
    /// Ask whether the client's address is over its failure limit.
    AskRateLimit,
    /// Have this service account token reviewed.
    ReviewToken(String),
    /// Every check passed: perform the store operation.
    Proceed,
}

pub enum AdmissionView {
    Reject { reply: Reply, record_failure: bool },
    AskRateLimit,
    ReviewToken(Seq<char>),
    Proceed,
}

impl View for Admission {
    type V = AdmissionView;

    open spec fn view(&self) -> AdmissionView {
        match self {
            Admission::Reject { reply, record_failure } => AdmissionView::Reject {
                reply: *reply,
                record_failure: *record_failure,
            },
            Admission::AskRateLimit => AdmissionView::AskRateLimit,
            Admission::ReviewToken(t) => AdmissionView::ReviewToken(t@),
            Admission::Proceed => AdmissionView::Proceed,
        }
    }
}

/// Who may use the cache.
pub struct AccessPolicy {
    /// Used at Standard / Hardened levels. Not consulted at Paranoid.
    pub access_token: String,
    pub security: SecurityLevel,
    /// Whether auth failures are counted per address (Paranoid).
    pub tracks_failures: bool,
    /// Whether a Kubernetes client is at hand for token reviews (Paranoid).
    pub has_k8s_client: bool,
    /// Namespaces callers must belong to (empty = any). Paranoid only.
    pub allowed_namespaces: Vec<String>,
}

impl AccessPolicy {
    /// The first step of authentication for a request with `headers`.
    pub open spec fn first_step(&self, headers: &RequestHeaders) -> AuthStepView {
        if self.security.rank() >= 3 {
            if !self.has_k8s_client {
                AuthStepView::Decided(AuthOutcomeView::ApiError("k8s client not initialised"@))
            } else {
                match bearer_token(headers.authorization_bytes()) {
                    None => AuthStepView::Decided(AuthOutcomeView::Unauthorized),
                    Some(t) => AuthStepView::ReviewToken(t),
                }
            }
        } else {
            AuthStepView::Decided(
                static_outcome(
                    bearer_token(headers.authorization_bytes()),
                    self.access_token@,
                    self.security,
                ),
            )
        }
    }

    /// What follows an authentication outcome.
    pub open spec fn verdict(&self, op: Op, outcome: AuthOutcomeView) -> AuthVerdict {
        match outcome {
            AuthOutcomeView::Allowed => AuthVerdict::Pass,
            AuthOutcomeView::Unauthorized => AuthVerdict::Reject {
                reply: Reply {
                    status: 401,
                    body: ReplyBody::MissingAuthorization,
                    op,
                    result: OpResult::Unauthorized,
                },
                record_failure: false,
            },
            AuthOutcomeView::Forbidden => AuthVerdict::Reject {
                reply: Reply {
                    status: 403,
                    body: ReplyBody::Forbidden,
                    op,
                    result: OpResult::Forbidden,
                },
                record_failure: self.tracks_failures,
            },
            AuthOutcomeView::ApiError(_) => AuthVerdict::Reject {
                reply: Reply { status: 503, body: ReplyBody::Empty, op, result: OpResult::Error },
                record_failure: false,
            },
        }
    }

    /// Where a request stands after the checks that come before the store:
    /// a malformed hash, then (where failures are tracked) the address's
    /// failure limit, then authentication, then for an upload its declared
    /// length. `rate_limited` and `review` are the answers to the questions
    /// asked so far (`None`: not asked yet).
    pub open spec fn admission(
        &self,
        op: Op,
        hash: Seq<char>,
        headers: &RequestHeaders,
        body_len: usize,
        rate_limited: Option<bool>,
        review: Option<AuthOutcomeView>,
    ) -> AdmissionView {
        if !valid_hash(hash) {
            AdmissionView::Reject {
                reply: Reply { status: 400, body: ReplyBody::InvalidHash, op, result: OpResult::Invalid },
                record_failure: false,
            }
        } else if self.tracks_failures && rate_limited is None {
            AdmissionView::AskRateLimit
        } else if self.tracks_failures && rate_limited == Some(true) {
            AdmissionView::Reject {
                reply: Reply { status: 429, body: ReplyBody::Empty, op, result: OpResult::RateLimited },
                record_failure: false,
            }
        } else {
            let step = self.first_step(headers);
            if step is ReviewToken && review is None {
                AdmissionView::ReviewToken(step->ReviewToken_0)
            } else {
                let outcome = match step {
                    AuthStepView::Decided(o) => o,
                    AuthStepView::ReviewToken(_) => review->0,
                };
                match self.verdict(op, outcome) {
                    AuthVerdict::Reject { reply, record_failure } => AdmissionView::Reject {
                        reply,
                        record_failure,
                    },
                    AuthVerdict::Pass => if op == Op::Put && length_mismatch(
                        self.security,
                        headers.content_length_bytes(),
                        body_len,
                    ) {
                        AdmissionView::Reject {
                            reply: Reply {
                                status: 400,
                                body: ReplyBody::ContentLengthMismatch,
                                op: Op::Put,
                                result: OpResult::Invalid,
                            },
                            record_failure: false,
                        }
                    } else {
                        AdmissionView::Proceed
                    },
                }
            }
        }
    }

    /// The checks before the store, in order (see `admission`): the caller
    /// answers `AskRateLimit` and `ReviewToken` and asks again, answers a
    /// `Reject` (first counting an auth failure where it says so), and
    /// performs the store operation only on `Proceed`.
    pub fn gate_request(
        &self,
        op: Op,
        hash: &str,
        headers: &RequestHeaders,
        body_len: usize,
        rate_limited: Option<bool>,
        review: Option<&AuthOutcome>,
    ) -> (r: Admission)
        ensures
            r@ == self.admission(
                op,
                hash@,
                headers,
                body_len,
                rate_limited,
                match review {
                    Some(o) => Some(o@),
                    None => None,
                },
            ),
    {
        if let Some(reply) = check_hash(op, hash) {
            return Admission::Reject { reply, record_failure: false };
        }
        if self.tracks_failures {
            match rate_limited {
                None => {
                    return Admission::AskRateLimit;
                },
                Some(limited) => {
                    if let Some(reply) = rate_limit_reply(op, limited) {
                        return Admission::Reject { reply, record_failure: false };
                    }
                },
            }
        }
        let verdict = match self.begin_auth(headers) {
            AuthStep::Decided(o) => self.auth_verdict(op, &o),
            AuthStep::ReviewToken(t) => match review {
                None => {
                    return Admission::ReviewToken(t);
                },
                Some(o) => self.auth_verdict(op, o),
            },
        };
        match verdict {
            AuthVerdict::Reject { reply, record_failure } => Admission::Reject {
                reply,
                record_failure,
            },
            AuthVerdict::Pass => {
                if op == Op::Put {
                    if let Some(reply) = content_length_reply(self.security, headers, body_len) {
                        return Admission::Reject { reply, record_failure: false };
                    }
                }
                Admission::Proceed
            },
        }
    }

    /// The first step of authentication: at the Paranoid level the caller's
    /// bearer token goes to a token review (missing: `Unauthorized`; no client
    /// to review it: `ApiError`); below it, the static token check decides.
    pub fn begin_auth(&self, headers: &RequestHeaders) -> (r: AuthStep)
        ensures
            r@ == self.first_step(headers),
    {
        if self.security.uses_k8s_auth() {
            if !self.has_k8s_client {
                return AuthStep::Decided(
                    AuthOutcome::ApiError(String::from_str("k8s client not initialised")),
                );
            }
            match extract_token(headers) {
                None => AuthStep::Decided(AuthOutcome::Unauthorized),
                Some(t) => AuthStep::ReviewToken(t),
            }
        } else {
            AuthStep::Decided(
                check_static_auth(headers, self.access_token.as_str(), self.security),
            )
        }
    }

    /// The reply to an authentication outcome: `401` for a missing token,
    /// `403` (counted against the address where failures are tracked) for a
    /// refused one, `503` where the auth backend could not answer.
    pub fn auth_verdict(&self, op: Op, outcome: &AuthOutcome) -> (r: AuthVerdict)
        ensures
            r == self.verdict(op, outcome@),
    {
        match outcome {
            AuthOutcome::Allowed => AuthVerdict::Pass,
            AuthOutcome::Unauthorized => AuthVerdict::Reject {
                reply: Reply {
                    status: 401,
                    body: ReplyBody::MissingAuthorization,
                    op,
                    result: OpResult::Unauthorized,
                },
                record_failure: false,
            },
            AuthOutcome::Forbidden => AuthVerdict::Reject {
                reply: Reply {
                    status: 403,
                    body: ReplyBody::Forbidden,
                    op,
                    result: OpResult::Forbidden,
                },
                record_failure: self.tracks_failures,
            },
            AuthOutcome::ApiError(_) => AuthVerdict::Reject {
                reply: Reply { status: 503, body: ReplyBody::Empty, op, result: OpResult::Error },
                record_failure: false,
            },
        }
    }
}

/// The length a `Content-Length` value declares, if it is a `usize`.
pub open spec fn declared_length(value: Option<Seq<u8>>) -> Option<nat> {
    match value {
        None => None,
        Some(v) => match header_text(v) {
            Some(t) => parse_unsigned(t, usize::MAX as nat),
            None => None,
        },
    }
}

/// Whether, at `security`, an upload of `body_len` bytes contradicts the
/// `Content-Length` it declared: checked at `Hardened` and above, where the
/// header holds a `usize`.
pub open spec fn length_mismatch(security: SecurityLevel, value: Option<Seq<u8>>, body_len: usize) -> bool {
    &&& security.rank() >= 2
    &&& declared_length(value) is Some
    &&& declared_length(value)->0 != body_len
}

/// At `Hardened` and above, turns away an upload whose declared
/// `Content-Length` differs from the body received: `400`.
pub fn content_length_reply(security: SecurityLevel, headers: &RequestHeaders, body_len: usize) -> (r:
    Option<Reply>)
    ensures
        length_mismatch(security, headers.content_length_bytes(), body_len) ==> r == Some(
            Reply {
                status: 400,
                body: ReplyBody::ContentLengthMismatch,
                op: Op::Put,
                result: OpResult::Invalid,
            },
        ),
        !length_mismatch(security, headers.content_length_bytes(), body_len) ==> r is None,
{
    if !security.verify_integrity() {
        return None;
    }
    let value = match &headers.content_length {
        None => {
            return None;
        },
        Some(v) => v,
    };
    if !is_header_text(value.as_slice()) {
        return None;
    }
    proof {
        assert forall|j: int| 0 <= j < value@.len() implies #[trigger] value@[j] < 128 by {
            assert(crate::auth::is_visible(value@[j]));
        }
    }
    let text = ascii_string(value.as_slice());
    match parse_usize(text.as_str()) {
        Some(declared) => if declared != body_len {
            Some(
                Reply {
                    status: 400,
                    body: ReplyBody::ContentLengthMismatch,
                    op: Op::Put,
                    result: OpResult::Invalid,
                },
            )
        } else {
            None
        },
        None => None,
    }
}

/// The reply to a stored upload: `200`, `409` where the entry already
/// exists, `500` on any other failure.
pub fn put_reply(result: &Result<(), CacheError>) -> (r: Reply)
    ensures
        r == match result {
            Ok(()) => Reply {
                status: 200,
                body: ReplyBody::Empty,
                op: Op::Put,
                result: OpResult::Stored,
            },
            Err(CacheError::AlreadyExists(_)) => Reply {
                status: 409,
                body: ReplyBody::Empty,
                op: Op::Put,
                result: OpResult::Conflict,
            },
            Err(_) => Reply {
                status: 500,
                body: ReplyBody::Empty,
                op: Op::Put,
                result: OpResult::Error,
            },
        },
{
    match result {
        Ok(()) => Reply { status: 200, body: ReplyBody::Empty, op: Op::Put, result: OpResult::Stored },
        Err(CacheError::AlreadyExists(_)) => Reply {
            status: 409,
            body: ReplyBody::Empty,
            op: Op::Put,
            result: OpResult::Conflict,
        },
        Err(_) => Reply { status: 500, body: ReplyBody::Empty, op: Op::Put, result: OpResult::Error },
    }
}

/// The reply to a read: `200` with the data, `404` for a miss, `500` for a
/// corrupted entry or any other failure.
pub fn get_reply(result: &Result<(), CacheError>) -> (r: Reply)
    ensures
        r == match result {
            Ok(()) => Reply {
                status: 200,
                body: ReplyBody::Artifact,
                op: Op::Get,
                result: OpResult::Hit,
            },
            Err(CacheError::NotFound(_)) => Reply {
                status: 404,
                body: ReplyBody::Empty,
                op: Op::Get,
                result: OpResult::Miss,
            },
            Err(CacheError::Corrupted(_)) => Reply {
                status: 500,
                body: ReplyBody::Empty,
                op: Op::Get,
                result: OpResult::Corrupted,
            },
            Err(_) => Reply {
                status: 500,
                body: ReplyBody::Empty,
                op: Op::Get,
                result: OpResult::Error,
            },
        },
{
    match result {
        Ok(()) => Reply { status: 200, body: ReplyBody::Artifact, op: Op::Get, result: OpResult::Hit },
        Err(CacheError::NotFound(_)) => Reply {
            status: 404,
            body: ReplyBody::Empty,
            op: Op::Get,
            result: OpResult::Miss,
        },
        Err(CacheError::Corrupted(_)) => Reply {
            status: 500,
            body: ReplyBody::Empty,
            op: Op::Get,
            result: OpResult::Corrupted,
        },
        Err(_) => Reply { status: 500, body: ReplyBody::Empty, op: Op::Get, result: OpResult::Error },
    }
}

} // verus!
