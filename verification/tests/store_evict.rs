use nx_k8s_cache::cache::errors::{BackendFailure, CacheError, FailureKind};
use nx_k8s_cache::cache::evict::{eviction_cutoff, DiskEviction, EntryAction, ObjectEviction};
use nx_k8s_cache::cache::store::{
    head_means_accessible, join, DiskCache, FetchFailure, GetNext, ObjectStoreCache, PutNext,
    WriteMode,
};
use nx_k8s_cache::digest::{integrity_ok, sha256_hex, to_hex};

const ABC_DIGEST: &str = "ba7816bf8f01cfea414140de5dae2223b00361a396177a9cb410ff61f20015ad";
const EMPTY_DIGEST: &str = "e3b0c44298fc1c149afbf4c8996fb92427ae41e4649b934ca495991b7852b855";

fn fail(kind: FailureKind, m: &str) -> BackendFailure {
    BackendFailure { kind, message: m.to_string() }
}

fn msg(e: &CacheError) -> String {
    e.message()
}

#[test]
fn digests() {
    assert_eq!(sha256_hex(b"abc"), ABC_DIGEST);
    assert_eq!(sha256_hex(b""), EMPTY_DIGEST);
    assert_eq!(to_hex(&[0x00, 0x0f, 0xa0, 0xff]), b"000fa0ff".to_vec());
    assert!(integrity_ok("h", b"abc", ABC_DIGEST));
    assert!(!integrity_ok("h", b"abd", ABC_DIGEST));
    assert!(!integrity_ok("h", b"abc", ""));
    assert!(!integrity_ok("h", b"abc", &ABC_DIGEST.to_uppercase()));
}

#[test]
fn error_texts() {
    assert_eq!(msg(&CacheError::Io("disk full".into())), "IO error: disk full");
    assert_eq!(msg(&CacheError::ObjectStore("503".into())), "object store error: 503");
    assert_eq!(msg(&CacheError::NotFound("ab".into())), "entry not found: ab");
    assert_eq!(msg(&CacheError::AlreadyExists("ab".into())), "entry already exists: ab");
    assert_eq!(msg(&CacheError::Corrupted("ab".into())), "content integrity check failed for ab");
}

#[test]
fn path_joining_follows_path_join() {
    for (dir, name) in [("/var/cache/nx", "ab"), ("/var/cache/nx/", "ab"), ("", "ab"), ("rel", "ab"), ("/d", "/abs"), ("/", "x")] {
        let expected = std::path::Path::new(dir).join(name);
        assert_eq!(join(dir, name), expected.to_str().unwrap(), "{dir} {name}");
    }
    let c = DiskCache::new("/var/cache/nx", true, true);
    assert_eq!(c.artifact_path("abc123"), "/var/cache/nx/abc123");
    assert_eq!(c.sidecar_path("abc123"), "/var/cache/nx/abc123.sha256");
}

#[test]
fn disk_write_once_put() {
    let c = DiskCache::new("/c", true, false);
    let plan = c.put_plan("ab");
    assert_eq!(plan.path, "/c/ab");
    assert_eq!(plan.mode, WriteMode::CreateNew);
    // The file exists already: conflict, nothing removed.
    let f = c.put_created("ab", Err(fail(FailureKind::AlreadyExists, "exists"))).unwrap();
    assert!(f.remove.is_empty());
    assert!(matches!(f.result, Err(CacheError::AlreadyExists(ref h)) if h == "ab"));
    let f = c.put_created("ab", Err(fail(FailureKind::Other, "denied"))).unwrap();
    assert!(matches!(f.result, Err(CacheError::Io(ref m)) if m == "denied"));
    assert!(c.put_created("ab", Ok(())).is_none());
    // A failed write into the new file removes it.
    match c.put_written("ab", b"x", Err(fail(FailureKind::Other, "short write"))) {
        PutNext::Finish(f) => {
            assert_eq!(f.remove, vec!["/c/ab".to_string()]);
            assert!(matches!(f.result, Err(CacheError::Io(ref m)) if m == "short write"));
        }
        _ => panic!(),
    }
    match c.put_written("ab", b"x", Ok(())) {
        PutNext::Finish(f) => assert!(f.remove.is_empty() && f.result.is_ok()),
        _ => panic!("no sidecar without integrity checks"),
    }
}

#[test]
fn disk_overwriting_put_with_integrity() {
    let c = DiskCache::new("/c", false, true);
    assert_eq!(c.put_plan("ab").mode, WriteMode::Overwrite);
    match c.put_written("ab", b"x", Err(fail(FailureKind::Other, "e"))) {
        PutNext::Finish(f) => {
            assert!(f.remove.is_empty());
            assert!(matches!(f.result, Err(CacheError::Io(_))));
        }
        _ => panic!(),
    }
    match c.put_written("ab", b"abc", Ok(())) {
        PutNext::WriteSidecar { path, digest } => {
            assert_eq!(path, "/c/ab.sha256");
            assert_eq!(digest, ABC_DIGEST);
        }
        _ => panic!("expected a sidecar"),
    }
    let f = c.put_sidecar_written("ab", Err(fail(FailureKind::Other, "e")));
    assert_eq!(f.remove, vec!["/c/ab".to_string()]);
    assert!(matches!(f.result, Err(CacheError::Io(_))));
    let f = c.put_sidecar_written("ab", Ok(()));
    assert!(f.remove.is_empty() && f.result.is_ok());
}

#[test]
fn disk_get() {
    let plain = DiskCache::new("/c", true, false);
    match plain.get_read("ab", Err(fail(FailureKind::NotFound, "no such file"))) {
        GetNext::Finish(f) => assert!(matches!(f.result, Err(CacheError::NotFound(ref h)) if h == "ab")),
        _ => panic!(),
    }
    match plain.get_read("ab", Err(fail(FailureKind::Other, "eio"))) {
        GetNext::Finish(f) => assert!(matches!(f.result, Err(CacheError::Io(ref m)) if m == "eio")),
        _ => panic!(),
    }
    match plain.get_read("ab", Ok(b"abc")) {
        GetNext::Finish(f) => assert!(f.result.is_ok()),
        _ => panic!(),
    }
    let checked = DiskCache::new("/c", true, true);
    match checked.get_read("ab", Ok(b"abc")) {
        GetNext::ReadSidecar { path } => assert_eq!(path, "/c/ab.sha256"),
        _ => panic!(),
    }
}

#[test]
fn integrity_round_trip_on_disk() {
    // What a write stores as sidecar is what a read accepts, also with a
    // trailing newline added by hand.
    let c = DiskCache::new("/c", true, true);
    let digest = match c.put_written("ab", b"abc", Ok(())) {
        PutNext::WriteSidecar { digest, .. } => digest,
        _ => panic!(),
    };
    let f = c.get_checked("ab", b"abc", Some(digest.clone()));
    assert!(f.result.is_ok() && f.remove.is_empty());
    let f = c.get_checked("ab", b"abc", Some(format!("{digest}\n")));
    assert!(f.result.is_ok());
    // Bit rot: purge both files.
    let f = c.get_checked("ab", b"abd", Some(digest));
    assert_eq!(f.remove, vec!["/c/ab".to_string(), "/c/ab.sha256".to_string()]);
    assert!(matches!(f.result, Err(CacheError::Corrupted(ref h)) if h == "ab"));
    // A missing sidecar counts as an empty digest.
    let f = c.get_checked("ab", b"abc", None);
    assert!(matches!(f.result, Err(CacheError::Corrupted(_))));
}

#[test]
fn object_store_layout() {
    let c = ObjectStoreCache::new(None, true, true);
    assert_eq!(c.artifact_path("ab"), "ab");
    assert_eq!(c.sidecar_path("ab"), "ab.sha256");
    assert_eq!(c.list_prefix(), None);
    let c = ObjectStoreCache::new(Some("nx".into()), true, true);
    assert_eq!(c.artifact_path("ab"), "nx/ab");
    assert_eq!(c.sidecar_path("ab"), "nx/ab.sha256");
    assert_eq!(c.list_prefix(), Some("nx".to_string()));
    let c = ObjectStoreCache::new(Some(String::new()), true, true);
    assert_eq!(c.artifact_path("ab"), "ab");
}

#[test]
fn object_store_put() {
    let c = ObjectStoreCache::new(Some("p".into()), true, true);
    assert_eq!(c.put_plan("ab").mode, WriteMode::CreateNew);
    assert_eq!(c.put_plan("ab").path, "p/ab");
    match c.put_stored("ab", b"abc", Err(fail(FailureKind::AlreadyExists, "exists"))) {
        PutNext::Finish(f) => {
            assert!(f.remove.is_empty());
            assert!(matches!(f.result, Err(CacheError::AlreadyExists(ref h)) if h == "ab"));
        }
        _ => panic!(),
    }
    match c.put_stored("ab", b"abc", Err(fail(FailureKind::Other, "throttled"))) {
        PutNext::Finish(f) => assert!(matches!(f.result, Err(CacheError::ObjectStore(ref m)) if m == "throttled")),
        _ => panic!(),
    }
    match c.put_stored("ab", b"abc", Ok(())) {
        PutNext::WriteSidecar { path, digest } => {
            assert_eq!(path, "p/ab.sha256");
            assert_eq!(digest, ABC_DIGEST);
        }
        _ => panic!(),
    }
    let f = c.put_sidecar_stored("ab", Err(fail(FailureKind::Other, "x")));
    assert_eq!(f.remove, vec!["p/ab".to_string()]);
    assert!(matches!(f.result, Err(CacheError::ObjectStore(_))));
    // Without write-once an existing object is no conflict.
    let o = ObjectStoreCache::new(None, false, false);
    assert_eq!(o.put_plan("ab").mode, WriteMode::Overwrite);
    match o.put_stored("ab", b"abc", Err(fail(FailureKind::AlreadyExists, "exists"))) {
        PutNext::Finish(f) => assert!(matches!(f.result, Err(CacheError::ObjectStore(_)))),
        _ => panic!(),
    }
    match o.put_stored("ab", b"abc", Ok(())) {
        PutNext::Finish(f) => assert!(f.result.is_ok()),
        _ => panic!(),
    }
}

#[test]
fn object_store_get() {
    let c = ObjectStoreCache::new(None, true, true);
    let f = c.get_fetched("ab", Err(FetchFailure::Request(fail(FailureKind::NotFound, "404"))), None);
    assert!(matches!(f.result, Err(CacheError::NotFound(ref h)) if h == "ab"));
    let f = c.get_fetched("ab", Err(FetchFailure::Request(fail(FailureKind::Other, "500"))), None);
    assert!(matches!(f.result, Err(CacheError::ObjectStore(ref m)) if m == "500"));
    let f = c.get_fetched("ab", Err(FetchFailure::Body("reset".into())), None);
    assert!(matches!(f.result, Err(CacheError::ObjectStore(ref m)) if m == "reset"));
    let f = c.get_fetched("ab", Ok(b"abc"), Some(ABC_DIGEST.as_bytes()));
    assert!(f.result.is_ok() && f.remove.is_empty());
    let f = c.get_fetched("ab", Ok(b"abc"), Some(format!(" {ABC_DIGEST}\r\n").as_bytes()));
    assert!(f.result.is_ok());
    let f = c.get_fetched("ab", Ok(b"abc"), Some(b"\xff"));
    assert_eq!(f.remove, vec!["ab".to_string(), "ab.sha256".to_string()]);
    assert!(matches!(f.result, Err(CacheError::Corrupted(_))));
    let f = c.get_fetched("ab", Ok(b"abc"), None);
    assert!(matches!(f.result, Err(CacheError::Corrupted(_))));
    let plain = ObjectStoreCache::new(None, true, false);
    let f = plain.get_fetched("ab", Ok(b"abc"), None);
    assert!(f.result.is_ok());
}

#[test]
fn object_store_health_probe() {
    assert!(head_means_accessible(Ok(())));
    assert!(head_means_accessible(Err(fail(FailureKind::NotFound, "404"))));
    assert!(!head_means_accessible(Err(fail(FailureKind::Other, "403"))));
}

#[test]
fn cutoff_times() {
    let now: i128 = 1_700_000_000_000_000_000;
    let secs = |d: u64| std::time::Duration::from_secs(d).as_nanos();
    assert_eq!(eviction_cutoff(now, secs(60)), now - 60_000_000_000);
    assert_eq!(eviction_cutoff(now, 0), now);
    // A time to live below a second still moves the cutoff.
    let half = std::time::Duration::from_millis(1500).as_nanos();
    assert_eq!(eviction_cutoff(now, half), now - 1_500_000_000);
    // Before the epoch is still a time...
    assert_eq!(eviction_cutoff(now, secs(2_000_000_000)), now - 2_000_000_000_000_000_000);
    // ...until it is earlier than any: then the epoch.
    assert_eq!(eviction_cutoff(now, secs(u64::MAX)), 0);
    assert_eq!(eviction_cutoff(now, std::time::Duration::MAX.as_nanos()), 0);
}

#[test]
fn disk_eviction_pass() {
    let mut e = DiskEviction::new(100);
    assert!(matches!(e.visit(b"abc.sha256", Some(5)), EntryAction::Keep));
    assert!(matches!(e.visit(b"abc", Some(101)), EntryAction::Keep));
    assert!(matches!(e.visit(b"abc", None), EntryAction::Keep));
    match e.visit(b"abc", Some(100)) {
        EntryAction::Remove { artifact, sidecar } => {
            assert_eq!(artifact, b"abc".to_vec());
            assert_eq!(sidecar, b"abc.sha256".to_vec());
        }
        _ => panic!(),
    }
    // `Path::with_extension` replaces an extension; a leading dot is none.
    for name in ["x.tmp", ".hidden", "a.b.c", "sha256", ".sha256", "x.", "a.sha2566"] {
        let mut e = DiskEviction::new(100);
        let p = std::path::Path::new("/d").join(name);
        let is_sidecar = p.extension().map_or(false, |x| x == "sha256");
        match e.visit(name.as_bytes(), Some(0)) {
            EntryAction::Keep => assert!(is_sidecar, "{name}"),
            EntryAction::Remove { sidecar, .. } => {
                assert!(!is_sidecar, "{name}");
                let expected = p.with_extension("sha256");
                assert_eq!(sidecar, expected.file_name().unwrap().to_str().unwrap().as_bytes(), "{name}");
            }
        }
    }
    let mut e = DiskEviction::new(100);
    e.visit(b"a", Some(1));
    e.visit(b"b", Some(2));
    e.visit(b"b.sha256", Some(2));
    e.visit(b"c", Some(200));
    assert_eq!(e.count(), 2);
}

#[test]
fn object_eviction_pass() {
    let mut e = ObjectEviction::new(100);
    e.visit("p/a".into(), 50);
    e.visit("p/a.sha256".into(), 50);
    e.visit("p/b".into(), 150);
    e.visit("p/c".into(), 100);
    let (keys, count) = e.finish(Ok(()));
    assert_eq!(keys, vec!["p/a".to_string(), "p/a.sha256".to_string(), "p/c".to_string()]);
    assert!(matches!(count, Ok(2)));
}

#[test]
fn object_eviction_listing_broken_off() {
    let mut e = ObjectEviction::new(100);
    e.visit("p/a".into(), 50);
    e.visit("p/b".into(), 60);
    let (keys, result) = e.finish(Err("connection reset".to_string()));
    assert!(keys.is_empty());
    match result {
        Err(err) => assert_eq!(err.message(), "object store error: connection reset"),
        Ok(_) => panic!("expected an error"),
    }
}

#[test]
fn object_eviction_counts_entries_not_sidecars() {
    for prefix in ["", "nx", "a.sha256"] {
        let key = |name: &str| if prefix.is_empty() { name.to_string() } else { format!("{prefix}/{name}") };
        let mut e = ObjectEviction::new(10);
        e.visit(key("ab12"), 1);
        e.visit(key("ab12.sha256"), 1);
        let (keys, count) = e.finish(Ok(()));
        assert_eq!(keys, vec![key("ab12"), key("ab12.sha256")]);
        assert!(matches!(count, Ok(1)), "{prefix}");
    }
}
