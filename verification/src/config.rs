//! Server configuration: security levels, storage backend, eviction and the
//! values read from the environment.
use vstd::prelude::*;
use crate::text::{
    lower_eq, lowercase_equals, parse_u64, parse_unsigned, parse_usize, trim, trim_ws,
};

verus! {

/// How strictly requests are authenticated and stored entries protected.
#[derive(Clone, Copy, PartialEq, Eq, Structural, Debug)]
pub enum SecurityLevel {
    /// No authentication, overwrites allowed, no integrity checks.
    /// Suitable for local development or fully trusted private networks.
    Open,
    /// Bearer token required (plain comparison), write-once per hash.
    /// Suitable for internal CI / single-team use.
    Standard,
    /// Constant-time token comparison, SHA-256 integrity sidecar on every
    /// PUT/GET, Content-Length validation.
    /// Suitable for shared infrastructure or multi-team environments.
    Hardened,
    /// k8s service account tokens validated via TokenReview API, namespace
    /// allowlist enforced, per-IP rate limiting on auth failures.
    /// Requires running inside a Kubernetes cluster. No shared secret needed.
    Paranoid,
}

/// The level that a value of `NX_CACHE_SECURITY_LEVEL` selects: `0`/`open`,
/// `1`/`standard`, `2`/`hardened`, `3`/`paranoid` in any case; anything else,
/// and an unset variable (read as the empty string), selects `Standard`.
pub open spec fn level_named(v: Seq<char>) -> SecurityLevel {
    if lower_eq(v, "0"@) || lower_eq(v, "open"@) {
        SecurityLevel::Open
    } else if lower_eq(v, "1"@) || lower_eq(v, "standard"@) {
        SecurityLevel::Standard
    } else if lower_eq(v, "2"@) || lower_eq(v, "hardened"@) {
        SecurityLevel::Hardened
    } else if lower_eq(v, "3"@) || lower_eq(v, "paranoid"@) {
        SecurityLevel::Paranoid
    } else {
        SecurityLevel::Standard
    }
}

/// The value of an optional variable, an unset one read as the empty string.
pub open spec fn or_empty(v: Option<Seq<char>>) -> Seq<char> {
    match v {
        Some(s) => s,
        None => Seq::empty(),
    }
}

impl SecurityLevel {
    /// The level's number: `Open` 0, `Standard` 1, `Hardened` 2, `Paranoid` 3.
    pub open spec fn rank(self) -> nat {
        match self {
            SecurityLevel::Open => 0,
            SecurityLevel::Standard => 1,
            SecurityLevel::Hardened => 2,
            SecurityLevel::Paranoid => 3,
        }
    }

    pub fn number(&self) -> (r: u8)
        ensures
            r as nat == self.rank(),
    {
        match self {
            SecurityLevel::Open => 0,
            SecurityLevel::Standard => 1,
            SecurityLevel::Hardened => 2,
            SecurityLevel::Paranoid => 3,
        }
    }

    /// `self >= other` in the order `Open < Standard < Hardened < Paranoid`.
    pub fn at_least(&self, other: SecurityLevel) -> (r: bool)
        ensures
            r == (self.rank() >= other.rank()),
    {
        self.number() >= other.number()
    }

    /// The level named by the value of `NX_CACHE_SECURITY_LEVEL`.
    pub fn parse(value: Option<&str>) -> (r: SecurityLevel)
        ensures
            r == level_named(
                match value {
                    Some(v) => v@,
                    None => Seq::empty(),
                },
            ),
    {
        let v = match value {
            Some(v) => v,
            None => "",
        };
        proof {
            reveal_strlit("");
        }
        if lowercase_equals(v, "0") || lowercase_equals(v, "open") {
            SecurityLevel::Open
        } else if lowercase_equals(v, "1") || lowercase_equals(v, "standard") {
            SecurityLevel::Standard
        } else if lowercase_equals(v, "2") || lowercase_equals(v, "hardened") {
            SecurityLevel::Hardened
        } else if lowercase_equals(v, "3") || lowercase_equals(v, "paranoid") {
            SecurityLevel::Paranoid
        } else {
            SecurityLevel::Standard
        }
    }

    pub open spec fn spec_name(self) -> Seq<char> {
        match self {
            SecurityLevel::Open => "open"@,
            SecurityLevel::Standard => "standard"@,
            SecurityLevel::Hardened => "hardened"@,
            SecurityLevel::Paranoid => "paranoid"@,
        }
    }

    /// The level's name, as it is displayed.
    pub fn name(&self) -> (r: &'static str)
        ensures
            r@ == self.spec_name(),
    {
        match self {
            SecurityLevel::Open => "open",
            SecurityLevel::Standard => "standard",
            SecurityLevel::Hardened => "hardened",
            SecurityLevel::Paranoid => "paranoid",
        }
    }

    /// Whether each hash can be written only once (`Standard` and above).
    pub fn write_once(&self) -> (r: bool)
        ensures
            r == (self.rank() >= 1),
    {
        self.at_least(SecurityLevel::Standard)
    }

    /// Whether a SHA-256 sidecar is stored and checked (`Hardened` and above).
    pub fn verify_integrity(&self) -> (r: bool)
        ensures
            r == (self.rank() >= 2),
    {
        self.at_least(SecurityLevel::Hardened)
    }

    /// Whether callers are authenticated by a Kubernetes TokenReview, their
    /// auth failures rate limited, and the server must run in a cluster
    /// (`Paranoid`).
    pub fn uses_k8s_auth(&self) -> (r: bool)
        ensures
            r == (self.rank() >= 3),
    {
        self.at_least(SecurityLevel::Paranoid)
    }
}

/// When and how often old entries are evicted.
pub struct EvictionConfig {
    /// Entries last modified at least this many seconds ago are evicted.
    pub ttl: u64,
    /// Seconds between two eviction passes.
    pub interval: u64,
}

/// The seconds that an optional variable holds, if it holds a `u64`.
pub open spec fn seconds_in(v: Option<Seq<char>>) -> Option<nat> {
    match v {
        Some(s) => parse_unsigned(s, u64::MAX as nat),
        None => None,
    }
}

impl EvictionConfig {
    /// Eviction as `NX_EVICTION_TTL_SECS` and `NX_EVICTION_INTERVAL_SECS`
    /// configure it: off unless the first holds a `u64`; the interval defaults
    /// to 3600 seconds where the second does not hold one.
    pub fn from_vars(ttl_secs: Option<&str>, interval_secs: Option<&str>) -> (r: Option<
        EvictionConfig,
    >)
        ensures
            match seconds_in(
                match ttl_secs {
                    Some(s) => Some(s@),
                    None => None,
                },
            ) {
                None => r is None,
                Some(t) => r matches Some(c) && c.ttl == t && c.interval == match seconds_in(
                    match interval_secs {
                        Some(s) => Some(s@),
                        None => None,
                    },
                ) {
                    Some(i) => i,
                    None => 3600,
                },
            },
    {
        let ttl = match ttl_secs {
            Some(s) => parse_u64(s),
            None => None,
        };
        match ttl {
            None => None,
            Some(ttl) => {
                let interval = match interval_secs {
                    Some(s) => match parse_u64(s) {
                        Some(i) => i,
                        None => 3600,
                    },
                    None => 3600,
                };
                Some(EvictionConfig { ttl, interval })
            },
        }
    }
}

/// S3-compatible object storage configuration.
/// Set `NX_CACHE_BACKEND=s3` to activate; credentials are read from standard
/// AWS env vars or the pod's workload identity / IRSA.
#[derive(Clone, Debug, PartialEq, Eq)]
pub struct S3Config {
    /// Bucket name — required (`NX_S3_BUCKET`).
    pub bucket: String,
    /// Custom endpoint for MinIO / localstack (`NX_S3_ENDPOINT`).
    pub endpoint: Option<String>,
    /// AWS region (`NX_S3_REGION`). Falls back to `AWS_DEFAULT_REGION`.
    pub region: Option<String>,
    /// Key prefix applied to all stored objects (`NX_S3_PREFIX`).
    pub prefix: Option<String>,
}

impl S3Config {
    /// The S3 settings, present exactly when a bucket is named.
    pub fn from_vars(
        bucket: Option<String>,
        endpoint: Option<String>,
        region: Option<String>,
        prefix: Option<String>,
    ) -> (r: Option<S3Config>)
        ensures
            match bucket {
                None => r is None,
                Some(b) => r == Some(S3Config { bucket: b, endpoint, region, prefix }),
            },
    {
        match bucket {
            None => None,
            Some(bucket) => Some(S3Config { bucket, endpoint, region, prefix }),
        }
    }
}

/// Where cache entries are stored.
#[derive(Clone, Debug, PartialEq, Eq)]
pub enum CacheBackend {
    Disk,
    S3(S3Config),
}

/// Why a configuration is refused.
#[derive(Clone, Copy, PartialEq, Eq, Structural, Debug)]
pub enum ConfigError {
    /// `NX_CACHE_TOKEN` is unset at the standard or hardened level.
    MissingToken,
    /// The token is shorter than 32 bytes at the hardened level.
    TokenTooShort { len: usize },
    /// `NX_CACHE_BACKEND=s3` without `NX_S3_BUCKET`.
    MissingBucket,
    /// `NX_MAX_BODY_MB` MiB do not fit in a `usize` of bytes.
    BodyLimitOverflow,
}

impl CacheBackend {
    /// The backend that `NX_CACHE_BACKEND` selects: S3 for `s3` in any case,
    /// which needs the S3 settings; the disk otherwise.
    pub fn from_vars(backend: Option<&str>, s3: Option<S3Config>) -> (r: Result<
        CacheBackend,
        ConfigError,
    >)
        ensures
            lower_eq(
                match backend {
                    Some(b) => b@,
                    None => Seq::empty(),
                },
                "s3"@,
            ) ==> match s3 {
                Some(c) => r == Ok::<CacheBackend, ConfigError>(CacheBackend::S3(c)),
                None => r == Err::<CacheBackend, ConfigError>(ConfigError::MissingBucket),
            },
            !lower_eq(
                match backend {
                    Some(b) => b@,
                    None => Seq::empty(),
                },
                "s3"@,
            ) ==> r == Ok::<CacheBackend, ConfigError>(CacheBackend::Disk),
    {
        let b = match backend {
            Some(b) => b,
            None => "",
        };
        proof {
            reveal_strlit("");
        }
        if lowercase_equals(b, "s3") {
            match s3 {
                Some(c) => Ok(CacheBackend::S3(c)),
                None => Err(ConfigError::MissingBucket),
            }
        } else {
            Ok(CacheBackend::Disk)
        }
    }

    pub open spec fn spec_name(self) -> Seq<char> {
        match self {
            CacheBackend::Disk => "disk"@,
            CacheBackend::S3(_) => "s3"@,
        }
    }

    /// The backend's name, as it is displayed.
    pub fn name(&self) -> (r: &'static str)
        ensures
            r@ == self.spec_name(),
    {
        match self {
            CacheBackend::Disk => "disk",
            CacheBackend::S3(_) => "s3",
        }
    }
}

// ---------------------------------------------------------------------------
// `NX_ALLOWED_NAMESPACES`: a comma-separated list.
/// The fields of `s` before its last comma, and the text after it, as
/// `str::split(',')` finds them.
pub open spec fn split_state(s: Seq<char>) -> (Seq<Seq<char>>, Seq<char>)
    decreases s.len(),
{
    if s.len() == 0 {
        (Seq::empty(), Seq::empty())
    } else {
        let prev = split_state(s.drop_last());
        if s.last() == ',' {
            (prev.0.push(prev.1), Seq::empty())
        } else {
            (prev.0, prev.1.push(s.last()))
        }
    }
}

/// `s.split(',')`.
pub open spec fn comma_fields(s: Seq<char>) -> Seq<Seq<char>> {
    split_state(s).0.push(split_state(s).1)
}

/// The fields trimmed, the empty ones left out.
pub open spec fn kept_names(fields: Seq<Seq<char>>) -> Seq<Seq<char>>
    decreases fields.len(),
{
    if fields.len() == 0 {
        Seq::empty()
    } else {
        let rest = kept_names(fields.drop_last());
        let t = trim_ws(fields.last());
        if t.len() > 0 {
            rest.push(t)
        } else {
            rest
        }
    }
}

/// The namespaces that a value of `NX_ALLOWED_NAMESPACES` lists.
pub open spec fn namespace_list(s: Seq<char>) -> Seq<Seq<char>> {
    kept_names(comma_fields(s))
}

/// Splits `s` at commas, trims each field and keeps those left non-empty.
pub fn parse_namespace_list(s: &str) -> (r: Vec<String>)
    ensures
        r.deep_view() == namespace_list(s@),
{
    let n = s.unicode_len();
    let mut out: Vec<String> = Vec::new();
    let mut start: usize = 0;
    let mut i: usize = 0;
    for c in it: s.chars()
        invariant
            n == s@.len(),
            i == it.index(),
            it.seq() == s@,
            start <= i <= n,
            split_state(s@.subrange(0, i as int)).1 == s@.subrange(start as int, i as int),
            out.deep_view() == kept_names(split_state(s@.subrange(0, i as int)).0),
    {
        assert(c == s@[i as int]);
        let ghost before = s@.subrange(0, i as int);
        let ghost after = s@.subrange(0, i + 1);
        assert(after.drop_last() =~= before);
        assert(after.last() == c);
        if c == ',' {
            let field = trim(s.substring_char(start, i));
            let ghost done = split_state(before).0.push(split_state(before).1);
            assert(done.drop_last() =~= split_state(before).0);
            if field.unicode_len() > 0 {
                let ghost old_out = out.deep_view();
                out.push(field);
                assert(out.deep_view() =~= old_out.push(field@));
            }
            start = i + 1;
            assert(s@.subrange(start as int, i + 1) =~= Seq::<char>::empty());
        } else {
            assert(s@.subrange(start as int, i + 1) =~= s@.subrange(start as int, i as int).push(c));
        }
        i = i + 1;
    }
    assert(s@.subrange(0, n as int) =~= s@);
    let field = trim(s.substring_char(start, n));
    let ghost fields = comma_fields(s@);
    assert(fields.drop_last() =~= split_state(s@).0);
    if field.unicode_len() > 0 {
        let ghost old_out = out.deep_view();
        out.push(field);
        assert(out.deep_view() =~= old_out.push(field@));
    }
    out
}

// ---------------------------------------------------------------------------
/// The environment variables that configure the server, each `None` when unset
/// or not valid Unicode.
pub struct EnvVars {
    /// `NX_CACHE_SECURITY_LEVEL`
    pub security_level: Option<String>,
    /// `NX_CACHE_TOKEN`
    pub cache_token: Option<String>,
    /// `NX_ALLOWED_NAMESPACES`
    pub allowed_namespaces: Option<String>,
    /// `NX_CACHE_BACKEND`
    pub cache_backend: Option<String>,
    /// `NX_S3_BUCKET`
    pub s3_bucket: Option<String>,
    /// `NX_S3_ENDPOINT`
    pub s3_endpoint: Option<String>,
    /// `NX_S3_REGION`
    pub s3_region: Option<String>,
    /// `NX_S3_PREFIX`
    pub s3_prefix: Option<String>,
    /// `NX_CACHE_DIR`
    pub cache_dir: Option<String>,
    /// `NX_MAX_BODY_MB`
    pub max_body_mb: Option<String>,
    /// `LOG_FORMAT`
    pub log_format: Option<String>,
    /// `NX_EVICTION_TTL_SECS`
    pub eviction_ttl_secs: Option<String>,
    /// `NX_EVICTION_INTERVAL_SECS`
    pub eviction_interval_secs: Option<String>,
}

pub struct Config {
    /// Static bearer token (used at Standard and Hardened levels).
    /// Not required at Open or Paranoid (k8s SA tokens are used instead).
    pub access_token: String,
    /// Storage backend and its settings.
    pub backend: CacheBackend,
    /// Local cache directory (used only when backend = disk).
    pub cache_dir: String,
    pub max_body_bytes: usize,
    pub log_format: String,
    pub security: SecurityLevel,
    /// Namespace this server is running in (auto-detected from SA file).
    pub server_namespace: String,
    /// Namespaces callers are allowed to originate from.
    /// Empty means all namespaces are accepted (Paranoid level only).
    pub allowed_namespaces: Vec<String>,
    pub eviction: Option<EvictionConfig>,
}

impl EnvVars {
    pub open spec fn level(&self) -> SecurityLevel {
        level_named(or_empty(self.security_level.deep_view()))
    }

    /// The token's length in bytes (`str::len`), the unset token read as empty.
    pub open spec fn token_len(&self) -> usize {
        match self.cache_token {
            Some(t) => vstd::utf8::encode_utf8(t@).len() as usize,
            None => 0,
        }
    }

    pub open spec fn selects_s3(&self) -> bool {
        lower_eq(or_empty(self.cache_backend.deep_view()), "s3"@)
    }

    /// The upload limit in MiB: `NX_MAX_BODY_MB` where it holds a `usize`,
    /// 512 otherwise.
    pub open spec fn body_limit_mb(&self) -> nat {
        match self.max_body_mb {
            Some(v) => match parse_unsigned(v@, usize::MAX as nat) {
                Some(mb) => mb,
                None => 512,
            },
            None => 512,
        }
    }

    /// Why these values are refused, checked in this order, if they are.
    pub open spec fn config_error(&self) -> Option<ConfigError> {
        let level = self.level();
        if (level == SecurityLevel::Standard || level == SecurityLevel::Hardened)
            && self.cache_token is None {
            Some(ConfigError::MissingToken)
        } else if level == SecurityLevel::Hardened && self.token_len() < 32 {
            Some(ConfigError::TokenTooShort { len: self.token_len() })
        } else if self.selects_s3() && self.s3_bucket is None {
            Some(ConfigError::MissingBucket)
        } else if self.body_limit_mb() * 1048576 > usize::MAX {
            Some(ConfigError::BodyLimitOverflow)
        } else {
            None
        }
    }
}

impl Config {
    /// The configuration that the environment values describe; the server's
    /// own namespace is found apart (see `k8s::resolve_server_namespace`).
    ///
    /// The token is required at the standard and hardened levels, and must
    /// be at least 32 bytes long at the hardened level. At the other levels an
    /// unset token reads as empty. `NX_CACHE_DIR` defaults to `/var/cache/nx`,
    /// `NX_MAX_BODY_MB` to 512, `LOG_FORMAT` to the empty string.
    pub fn from_vars(vars: EnvVars, server_namespace: String) -> (r: Result<Config, ConfigError>)
        ensures
            match vars.config_error() {
                Some(e) => r == Err::<Config, ConfigError>(e),
                None => r matches Ok(c) && {
                    &&& c.security == vars.level()
                    &&& c.access_token@ == or_empty(vars.cache_token.deep_view())
                    &&& c.backend == if vars.selects_s3() {
                        CacheBackend::S3(
                            S3Config {
                                bucket: vars.s3_bucket->0,
                                endpoint: vars.s3_endpoint,
                                region: vars.s3_region,
                                prefix: vars.s3_prefix,
                            },
                        )
                    } else {
                        CacheBackend::Disk
                    }
                    &&& c.cache_dir@ == match vars.cache_dir {
                        Some(d) => d@,
                        None => "/var/cache/nx"@,
                    }
                    &&& c.max_body_bytes == vars.body_limit_mb() * 1048576
                    &&& c.log_format@ == or_empty(vars.log_format.deep_view())
                    &&& c.server_namespace == server_namespace
                    &&& c.allowed_namespaces.deep_view() == namespace_list(
                        or_empty(vars.allowed_namespaces.deep_view()),
                    )
                    &&& match seconds_in(vars.eviction_ttl_secs.deep_view()) {
                        None => c.eviction is None,
                        Some(t) => c.eviction matches Some(e) && e.ttl == t && e.interval
                            == match seconds_in(vars.eviction_interval_secs.deep_view()) {
                            Some(i) => i,
                            None => 3600,
                        },
                    }
                },
            },
    {
        let security = SecurityLevel::parse(
            match &vars.security_level {
                Some(s) => Some(s.as_str()),
                None => None,
            },
        );
        let token_required = match security {
            SecurityLevel::Standard | SecurityLevel::Hardened => true,
            _ => false,
        };
        if token_required && vars.cache_token.is_none() {
            return Err(ConfigError::MissingToken);
        }
        let access_token = match vars.cache_token {
            Some(t) => t,
            None => String::new(),
        };
        let token_len = access_token.as_str().len();
        if security == SecurityLevel::Hardened && token_len < 32 {
            return Err(ConfigError::TokenTooShort { len: token_len });
        }
        let allowed_namespaces = match &vars.allowed_namespaces {
            Some(s) => parse_namespace_list(s.as_str()),
            None => {
                proof {
                    reveal_strlit("");
                }
                parse_namespace_list("")
            },
        };
        let s3 = S3Config::from_vars(vars.s3_bucket, vars.s3_endpoint, vars.s3_region, vars.s3_prefix);
        let backend = match CacheBackend::from_vars(
            match &vars.cache_backend {
                Some(s) => Some(s.as_str()),
                None => None,
            },
            s3,
        ) {
            Ok(b) => b,
            Err(e) => {
                return Err(e);
            },
        };
        let cache_dir = match vars.cache_dir {
            Some(d) => d,
            None => String::from_str("/var/cache/nx"),
        };
        let mb: usize = match &vars.max_body_mb {
            Some(v) => match parse_usize(v.as_str()) {
                Some(mb) => mb,
                None => 512,
            },
            None => 512,
        };
        let max_body_bytes = match mb.checked_mul(1048576) {
            Some(b) => b,
            None => {
                return Err(ConfigError::BodyLimitOverflow);
            },
        };
        let log_format = match vars.log_format {
            Some(f) => f,
            None => String::new(),
        };
        let eviction = EvictionConfig::from_vars(
            match &vars.eviction_ttl_secs {
                Some(s) => Some(s.as_str()),
                None => None,
            },
            match &vars.eviction_interval_secs {
                Some(s) => Some(s.as_str()),
                None => None,
            },
        );
        Ok(
            Config {
                access_token,
                backend,
                cache_dir,
                max_body_bytes,
                log_format,
                security,
                server_namespace,
                allowed_namespaces,
                eviction,
            },
        )
    }
}

} // verus!
