//! Kubernetes: in-cluster detection, the server's namespace, and the reading
//! of TokenReview answers about service account tokens.
use vstd::prelude::*;
use crate::text::{trim, trim_ws};

verus! {

/// The service account token file: `NX_SA_TOKEN_PATH` where set, the
/// standard mount point otherwise.
pub fn sa_token_path(configured: Option<String>) -> (r: String)
    ensures
        r@ == match configured {
            Some(p) => p@,
            None => "/var/run/secrets/kubernetes.io/serviceaccount/token"@,
        },
{
    match configured {
        Some(p) => p,
        None => String::from_str("/var/run/secrets/kubernetes.io/serviceaccount/token"),
    }
}

/// The service account namespace file: `NX_SA_NAMESPACE_PATH` where set, the
/// standard mount point otherwise.
pub fn sa_namespace_path(configured: Option<String>) -> (r: String)
    ensures
        r@ == match configured {
            Some(p) => p@,
            None => "/var/run/secrets/kubernetes.io/serviceaccount/namespace"@,
        },
{
    match configured {
        Some(p) => p,
        None => String::from_str("/var/run/secrets/kubernetes.io/serviceaccount/namespace"),
    }
}

/// The message given when the server must run in a cluster and does not.
pub open spec fn not_in_cluster_message(token_path: Seq<char>) -> Seq<char> {
    "nx-cache-server must run inside a Kubernetes cluster at this security level. Expected KUBERNETES_SERVICE_HOST to be set and a service account token at '"@
        + token_path
        + "'.\nHint: set NX_SA_TOKEN_PATH / NX_SA_NAMESPACE_PATH to override the default paths (useful for testing)."@
}

/// Refuses to go on outside a cluster: `Err` with the reason exactly when
/// `in_cluster` is false (the server stops with that message).
pub fn assert_in_cluster(in_cluster: bool, token_path: &str) -> (r: Result<(), String>)
    ensures
        in_cluster ==> r is Ok,
        !in_cluster ==> (r matches Err(m) && m@ == not_in_cluster_message(token_path@)),
{
    if in_cluster {
        Ok(())
    } else {
        let mut m = String::from_str(
            "nx-cache-server must run inside a Kubernetes cluster at this security level. Expected KUBERNETES_SERVICE_HOST to be set and a service account token at '",
        );
        m.append(token_path);
        m.append(
            "'.\nHint: set NX_SA_TOKEN_PATH / NX_SA_NAMESPACE_PATH to override the default paths (useful for testing).",
        );
        Err(m)
    }
}

/// The namespace the server runs in: the trimmed contents of the service
/// account namespace file where it could be read, else `NX_CACHE_NAMESPACE`
/// where set, else `default`.
pub fn resolve_server_namespace(file_contents: Option<String>, configured: Option<String>) -> (r:
    String)
    ensures
        r@ == match file_contents {
            Some(c) => trim_ws(c@),
            None => match configured {
                Some(ns) => ns@,
                None => "default"@,
            },
        },
{
    match file_contents {
        Some(c) => trim(c.as_str()),
        None => match configured {
            Some(ns) => ns,
            None => String::from_str("default"),
        },
    }
}

/// What a TokenReview found out about a caller.
pub enum ReviewOutcome {
    /// Token is valid, SA is in an allowed namespace.
    Allowed { namespace: String, service_account: String },
    /// Token is valid but the SA's namespace is not in the allowlist.
    ForbiddenNamespace { namespace: String },
    /// Token was rejected by the k8s API (expired, malformed, etc.).
    Unauthenticated,
    /// We failed to reach the k8s API.
    ApiError(String),
}

/// The part of a TokenReview status that the review reads.
pub struct TokenReviewStatus {
    /// `status.authenticated`
    pub authenticated: Option<bool>,
    /// `status.user.username`
    pub username: Option<String>,
}

/// `s` split at its first `c`, if it holds one.
pub open spec fn split_at_first(s: Seq<char>, c: char) -> Option<(Seq<char>, Seq<char>)> {
    if exists|i: int| 0 <= i < s.len() && s[i] == c && forall|j: int| 0 <= j < i ==> s[j] != c {
        let i = choose|i: int|
            0 <= i < s.len() && s[i] == c && forall|j: int| 0 <= j < i ==> s[j] != c;
        Some((s.take(i), s.skip(i + 1)))
    } else {
        None
    }
}

/// The namespace and name in a service account's user name
/// `system:serviceaccount:<namespace>:<name>`: those of `splitn(4, ':')`,
/// where that gives four parts and the first two are `system` and
/// `serviceaccount`. The name may itself hold colons.
pub open spec fn service_account_of(username: Seq<char>) -> Option<(Seq<char>, Seq<char>)> {
    let p = "system:serviceaccount:"@;
    if username.len() >= p.len() && username.take(p.len() as int) == p {
        split_at_first(username.skip(p.len() as int), ':')
    } else {
        None
    }
}

fn find_char(s: &str, c: char) -> (r: Option<usize>)
    ensures
        r matches Some(i) ==> i < s@.len() && s@[i as int] == c && forall|j: int|
            0 <= j < i ==> s@[j] != c,
        r is None ==> forall|j: int| 0 <= j < s@.len() ==> s@[j] != c,
{
    let n = s.unicode_len();
    let mut i: usize = 0;
    for x in it: s.chars()
        invariant
            n == s@.len(),
            i == it.index(),
            it.seq() == s@,
            i <= n,
            forall|j: int| 0 <= j < i ==> s@[j] != c,
    {
        assert(x == s@[i as int]);
        if x == c {
            return Some(i);
        }
        i = i + 1;
    }
    None
}

/// Splits a service account user name into its namespace and name.
pub fn parse_service_account(username: &str) -> (r: Option<(String, String)>)
    ensures
        match service_account_of(username@) {
            None => r is None,
            Some(parts) => r matches Some(found) && found.0@ == parts.0 && found.1@ == parts.1,
        },
{
    let prefix = "system:serviceaccount:";
    proof {
        reveal_strlit("system:serviceaccount:");
    }
    assert(prefix@ == "system:serviceaccount:"@);
    let n = username.unicode_len();
    let p = prefix.unicode_len();
    if n < p {
        return None;
    }
    let mut i: usize = 0;
    while i < p
        invariant
            n == username@.len(),
            p == prefix@.len(),
            prefix@ == "system:serviceaccount:"@,
            p <= n,
            i <= p,
            forall|j: int| 0 <= j < i ==> username@[j] == prefix@[j],
        decreases p - i,
    {
        if username.get_char(i) != prefix.get_char(i) {
            assert(username@.take(p as int)[i as int] != prefix@[i as int]);
            return None;
        }
        i = i + 1;
    }
    assert(username@.take(p as int) =~= prefix@);
    let rest = username.substring_char(p, n);
    assert(rest@ =~= username@.skip(p as int));
    match find_char(rest, ':') {
        None => {
            assert(!(exists|k: int|
                0 <= k < rest@.len() && rest@[k] == ':' && forall|j: int|
                    0 <= j < k ==> rest@[j] != ':'));
            None
        },
        Some(k) => {
            let ghost s = rest@;
            assert(exists|m: int|
                0 <= m < s.len() && s[m] == ':' && forall|j: int| 0 <= j < m ==> s[j] != ':');
            let ghost m = choose|m: int|
                0 <= m < s.len() && s[m] == ':' && forall|j: int| 0 <= j < m ==> s[j] != ':';
            assert(m == k as int) by {
                if m < k {
                    assert(s[m] != ':');
                } else if m > k {
                    assert(s[k as int] != ':');
                }
            }
            let rn = rest.unicode_len();
            let ns = rest.substring_char(0, k).to_string();
            let sa = rest.substring_char(k + 1, rn).to_string();
            assert(ns@ =~= s.take(k as int));
            assert(sa@ =~= s.skip(k + 1));
            Some((ns, sa))
        },
    }
}

/// Whether `allowed` lets callers from `namespace` in: an empty list lets
/// every namespace in.
pub open spec fn namespace_allowed(allowed: Seq<Seq<char>>, namespace: Seq<char>) -> bool {
    allowed.len() == 0 || allowed.contains(namespace)
}

/// A review outcome, its texts as character sequences.
pub enum ReviewOutcomeView {
    Allowed { namespace: Seq<char>, service_account: Seq<char> },
    ForbiddenNamespace { namespace: Seq<char> },
    Unauthenticated,
    ApiError(Seq<char>),
}

impl View for ReviewOutcome {
    type V = ReviewOutcomeView;

    open spec fn view(&self) -> ReviewOutcomeView {
        match self {
            ReviewOutcome::Allowed { namespace, service_account } => ReviewOutcomeView::Allowed {
                namespace: namespace@,
                service_account: service_account@,
            },
            ReviewOutcome::ForbiddenNamespace { namespace } => ReviewOutcomeView::ForbiddenNamespace {
                namespace: namespace@,
            },
            ReviewOutcome::Unauthenticated => ReviewOutcomeView::Unauthenticated,
            ReviewOutcome::ApiError(m) => ReviewOutcomeView::ApiError(m@),
        }
    }
}

/// A TokenReview answer as plain values: the error reaching the API gave,
/// or the status it returned (`None` where it returned none), as
/// `(authenticated, username)`.
pub type ReviewReply = Result<Option<(Option<bool>, Option<Seq<char>>)>, Seq<char>>;

pub open spec fn reply_view(reply: Result<Option<TokenReviewStatus>, String>) -> ReviewReply {
    match reply {
        Err(e) => Err(e@),
        Ok(None) => Ok(None),
        Ok(Some(st)) => Ok(
            Some(
                (
                    st.authenticated,
                    match st.username {
                        Some(u) => Some(u@),
                        None => None,
                    },
                ),
            ),
        ),
    }
}

/// The outcome of a review whose answer is `reply`, the namespaces in
/// `allowed` being let in.
pub open spec fn review_result(reply: ReviewReply, allowed: Seq<Seq<char>>) -> ReviewOutcomeView {
    match reply {
        Err(e) => ReviewOutcomeView::ApiError(e),
        Ok(None) => ReviewOutcomeView::ApiError("empty TokenReview status"@),
        Ok(Some((authenticated, username))) => if authenticated != Some(true) {
            ReviewOutcomeView::Unauthenticated
        } else {
            let user = match username {
                Some(u) => u,
                None => Seq::empty(),
            };
            match service_account_of(user) {
                None => ReviewOutcomeView::ApiError(
                    "unexpected username format in TokenReview: "@ + user,
                ),
                Some((ns, sa)) => if namespace_allowed(allowed, ns) {
                    ReviewOutcomeView::Allowed { namespace: ns, service_account: sa }
                } else {
                    ReviewOutcomeView::ForbiddenNamespace { namespace: ns }
                },
            }
        },
    }
}

/// What a TokenReview answer means: `reply` is the status the API returned
/// (`Ok(None)` where it returned none), or the error that reaching it gave.
pub fn review_outcome(reply: Result<Option<TokenReviewStatus>, String>, allowed_namespaces: &[String]) -> (r:
    ReviewOutcome)
    ensures
        r@ == review_result(reply_view(reply), allowed_namespaces.deep_view()),
        match reply {
            Err(e) => r matches ReviewOutcome::ApiError(m) && m@ == e@,
            Ok(None) => r matches ReviewOutcome::ApiError(m) && m@ == "empty TokenReview status"@,
            Ok(Some(st)) => if st.authenticated != Some(true) {
                r is Unauthenticated
            } else {
                let user = match st.username {
                    Some(u) => u@,
                    None => Seq::empty(),
                };
                match service_account_of(user) {
                    None => r matches ReviewOutcome::ApiError(m) && m@
                        == "unexpected username format in TokenReview: "@ + user,
                    Some((ns, sa)) => if namespace_allowed(allowed_namespaces.deep_view(), ns) {
                        r matches ReviewOutcome::Allowed { namespace, service_account }
                            && namespace@ == ns && service_account@ == sa
                    } else {
                        r matches ReviewOutcome::ForbiddenNamespace { namespace } && namespace@
                            == ns
                    },
                }
            },
        },
{
    let status = match reply {
        Err(e) => {
            return ReviewOutcome::ApiError(e);
        },
        Ok(None) => {
            return ReviewOutcome::ApiError(String::from_str("empty TokenReview status"));
        },
        Ok(Some(st)) => st,
    };
    match status.authenticated {
        Some(true) => {},
        _ => {
            return ReviewOutcome::Unauthenticated;
        },
    }
    let username = match status.username {
        Some(u) => u,
        None => String::new(),
    };
    let (namespace, service_account) = match parse_service_account(username.as_str()) {
        Some(parts) => parts,
        None => {
            let m = String::from_str("unexpected username format in TokenReview: ").concat(
                username.as_str(),
            );
            return ReviewOutcome::ApiError(m);
        },
    };
    let count = allowed_namespaces.len();
    if count == 0 {
        return ReviewOutcome::Allowed { namespace, service_account };
    }
    let mut i: usize = 0;
    #[verifier::loop_isolation(false)]
    while i < count
        invariant
            count == allowed_namespaces@.len(),
            i <= count,
            forall|j: int| 0 <= j < i ==> allowed_namespaces@[j]@ != namespace@,
        decreases count - i,
    {
        if allowed_namespaces[i] == namespace {
            proof {
                let d = allowed_namespaces.deep_view();
                assert(d[i as int] == namespace@);
                assert(d.contains(namespace@));
            }
            return ReviewOutcome::Allowed { namespace, service_account };
        }
        i = i + 1;
    }
    proof {
        let d = allowed_namespaces.deep_view();
        assert forall|j: int| 0 <= j < d.len() implies d[j] != namespace@ by {
            assert(d[j] == allowed_namespaces@[j]@);
        }
    }
    ReviewOutcome::ForbiddenNamespace { namespace }
}

} // verus!
