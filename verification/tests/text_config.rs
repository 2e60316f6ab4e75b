use nx_k8s_cache::config::{
    parse_namespace_list, CacheBackend, Config, ConfigError, EnvVars, EvictionConfig, S3Config,
    SecurityLevel,
};
use nx_k8s_cache::text::{lowercase_equals, parse_u64, parse_usize, trim};

fn no_vars() -> EnvVars {
    EnvVars {
        security_level: None,
        cache_token: None,
        allowed_namespaces: None,
        cache_backend: None,
        s3_bucket: None,
        s3_endpoint: None,
        s3_region: None,
        s3_prefix: None,
        cache_dir: None,
        max_body_mb: None,
        log_format: None,
        eviction_ttl_secs: None,
        eviction_interval_secs: None,
    }
}

fn s(v: &str) -> Option<String> {
    Some(v.to_string())
}

#[test]
fn trim_removes_unicode_whitespace() {
    assert_eq!(trim("  abc \n"), "abc");
    assert_eq!(trim("\u{3000}\tx y\u{a0}"), "x y");
    assert_eq!(trim(" \r\n "), "");
    assert_eq!(trim(""), "");
    assert_eq!(trim("abc"), "abc");
}

#[test]
fn decimal_parsing_follows_std() {
    assert_eq!(parse_u64("3600"), Some(3600));
    assert_eq!(parse_u64("+7"), Some(7));
    assert_eq!(parse_u64("+"), None);
    assert_eq!(parse_u64(""), None);
    assert_eq!(parse_u64("-1"), None);
    assert_eq!(parse_u64(" 1"), None);
    assert_eq!(parse_u64("18446744073709551615"), Some(u64::MAX));
    assert_eq!(parse_u64("18446744073709551616"), None);
    assert_eq!(parse_u64("99999999999999999999x"), None);
    for v in ["0", "42", "+0", "007", "12a", "٣"] {
        assert_eq!(parse_u64(v), v.parse::<u64>().ok(), "{v}");
        assert_eq!(parse_usize(v), v.parse::<usize>().ok(), "{v}");
    }
}

#[test]
fn keywords_match_case_insensitively() {
    assert!(lowercase_equals("HaRdEnEd", "hardened"));
    assert!(!lowercase_equals("hardene", "hardened"));
    assert!(!lowercase_equals("hardenedx", "hardened"));
}

#[test]
fn security_level_names() {
    assert_eq!(SecurityLevel::parse(Some("open")), SecurityLevel::Open);
    assert_eq!(SecurityLevel::parse(Some("0")), SecurityLevel::Open);
    assert_eq!(SecurityLevel::parse(Some("STANDARD")), SecurityLevel::Standard);
    assert_eq!(SecurityLevel::parse(Some("2")), SecurityLevel::Hardened);
    assert_eq!(SecurityLevel::parse(Some("Paranoid")), SecurityLevel::Paranoid);
    assert_eq!(SecurityLevel::parse(Some("3")), SecurityLevel::Paranoid);
    assert_eq!(SecurityLevel::parse(Some("bogus")), SecurityLevel::Standard);
    assert_eq!(SecurityLevel::parse(None), SecurityLevel::Standard);
    assert_eq!(SecurityLevel::Hardened.name(), "hardened");
    assert_eq!(SecurityLevel::Paranoid.number(), 3);
}

#[test]
fn security_level_features_grow_with_the_level() {
    let levels = [
        SecurityLevel::Open,
        SecurityLevel::Standard,
        SecurityLevel::Hardened,
        SecurityLevel::Paranoid,
    ];
    let write_once: Vec<bool> = levels.iter().map(|l| l.write_once()).collect();
    let verify: Vec<bool> = levels.iter().map(|l| l.verify_integrity()).collect();
    let k8s: Vec<bool> = levels.iter().map(|l| l.uses_k8s_auth()).collect();
    assert_eq!(write_once, vec![false, true, true, true]);
    assert_eq!(verify, vec![false, false, true, true]);
    assert_eq!(k8s, vec![false, false, false, true]);
    assert!(SecurityLevel::Hardened.at_least(SecurityLevel::Standard));
    assert!(!SecurityLevel::Standard.at_least(SecurityLevel::Hardened));
}

#[test]
fn eviction_settings() {
    let e = EvictionConfig::from_vars(Some("60"), None).unwrap();
    assert_eq!((e.ttl, e.interval), (60, 3600));
    let e = EvictionConfig::from_vars(Some("60"), Some("30")).unwrap();
    assert_eq!((e.ttl, e.interval), (60, 30));
    let e = EvictionConfig::from_vars(Some("60"), Some("soon")).unwrap();
    assert_eq!(e.interval, 3600);
    assert!(EvictionConfig::from_vars(None, Some("30")).is_none());
    assert!(EvictionConfig::from_vars(Some("x"), None).is_none());
}

#[test]
fn namespace_list_is_trimmed_and_filtered() {
    assert_eq!(parse_namespace_list(" ci , build,,  ,dev "), vec!["ci", "build", "dev"]);
    assert_eq!(parse_namespace_list(""), Vec::<String>::new());
    assert_eq!(parse_namespace_list(",,"), Vec::<String>::new());
    assert_eq!(parse_namespace_list("one"), vec!["one"]);
}

#[test]
fn backend_selection() {
    let s3 = S3Config::from_vars(s("bucket"), None, s("eu-west-1"), s("nx"));
    match CacheBackend::from_vars(Some("S3"), s3.clone()) {
        Ok(CacheBackend::S3(c)) => {
            assert_eq!(c.bucket, "bucket");
            assert_eq!(c.region.as_deref(), Some("eu-west-1"));
        }
        _ => panic!("expected s3"),
    }
    assert_eq!(CacheBackend::from_vars(Some("s3"), None), Err(ConfigError::MissingBucket));
    assert_eq!(CacheBackend::from_vars(Some("disk"), s3.clone()), Ok(CacheBackend::Disk));
    assert_eq!(CacheBackend::from_vars(None, None), Ok(CacheBackend::Disk));
    assert_eq!(CacheBackend::Disk.name(), "disk");
    assert!(S3Config::from_vars(None, s("e"), None, None).is_none());
}

#[test]
fn config_defaults() {
    let mut v = no_vars();
    v.cache_token = s("secret");
    let c = Config::from_vars(v, "ns".to_string()).ok().unwrap();
    assert_eq!(c.security, SecurityLevel::Standard);
    assert_eq!(c.access_token, "secret");
    assert_eq!(c.cache_dir, "/var/cache/nx");
    assert_eq!(c.max_body_bytes, 512 * 1024 * 1024);
    assert_eq!(c.log_format, "");
    assert_eq!(c.server_namespace, "ns");
    assert!(c.allowed_namespaces.is_empty());
    assert!(c.eviction.is_none());
    assert_eq!(c.backend, CacheBackend::Disk);
}

#[test]
fn config_reads_all_values() {
    let mut v = no_vars();
    v.security_level = s("paranoid");
    v.allowed_namespaces = s("ci, build");
    v.cache_backend = s("s3");
    v.s3_bucket = s("b");
    v.cache_dir = s("/data");
    v.max_body_mb = s("2");
    v.log_format = s("json");
    v.eviction_ttl_secs = s("86400");
    let c = Config::from_vars(v, "default".to_string()).ok().unwrap();
    assert_eq!(c.security, SecurityLevel::Paranoid);
    assert_eq!(c.access_token, "");
    assert_eq!(c.allowed_namespaces, vec!["ci", "build"]);
    assert!(matches!(c.backend, CacheBackend::S3(ref s3) if s3.bucket == "b"));
    assert_eq!(c.cache_dir, "/data");
    assert_eq!(c.max_body_bytes, 2 * 1024 * 1024);
    assert_eq!(c.log_format, "json");
    let e = c.eviction.unwrap();
    assert_eq!((e.ttl, e.interval), (86400, 3600));
}

#[test]
fn config_refusals() {
    let v = no_vars();
    assert_eq!(Config::from_vars(v, String::new()).err(), Some(ConfigError::MissingToken));

    let mut v = no_vars();
    v.security_level = s("hardened");
    assert_eq!(Config::from_vars(v, String::new()).err(), Some(ConfigError::MissingToken));

    let mut v = no_vars();
    v.security_level = s("hardened");
    v.cache_token = s("short");
    assert_eq!(
        Config::from_vars(v, String::new()).err(),
        Some(ConfigError::TokenTooShort { len: 5 })
    );

    let mut v = no_vars();
    v.security_level = s("hardened");
    v.cache_token = s("0123456789abcdef0123456789abcdef");
    assert!(Config::from_vars(v, String::new()).is_ok());

    // The length is counted in bytes: 16 two-byte characters are enough.
    let mut v = no_vars();
    v.security_level = s("hardened");
    v.cache_token = s("éééééééééééééééé");
    assert!(Config::from_vars(v, String::new()).is_ok());

    // Open and paranoid levels need no token.
    let mut v = no_vars();
    v.security_level = s("open");
    assert!(Config::from_vars(v, String::new()).is_ok());

    let mut v = no_vars();
    v.cache_token = s("t");
    v.cache_backend = s("s3");
    assert_eq!(Config::from_vars(v, String::new()).err(), Some(ConfigError::MissingBucket));

    let mut v = no_vars();
    v.cache_token = s("t");
    v.max_body_mb = s("18446744073709551615");
    assert_eq!(Config::from_vars(v, String::new()).err(), Some(ConfigError::BodyLimitOverflow));

    // A missing token is reported before a missing bucket.
    let mut v = no_vars();
    v.cache_backend = s("s3");
    assert_eq!(Config::from_vars(v, String::new()).err(), Some(ConfigError::MissingToken));
}
