//! Writes and reads driven step by step against an in-memory backend.
use nx_k8s_cache::cache::errors::{BackendFailure, CacheError, FailureKind};
use nx_k8s_cache::cache::store::{
    DiskCache, FetchFailure, Finish, GetNext, ObjectStoreCache, PutNext, WriteMode,
};
use std::collections::HashMap;

type Files = HashMap<String, Vec<u8>>;

fn settle(files: &mut Files, f: Finish) -> Result<(), CacheError> {
    for p in &f.remove {
        files.remove(p);
    }
    f.result
}

fn disk_put(c: &DiskCache, files: &mut Files, hash: &str, data: &[u8]) -> Result<(), CacheError> {
    let plan = c.put_plan(hash);
    if plan.mode == WriteMode::CreateNew {
        let created = if files.contains_key(&plan.path) {
            Err(BackendFailure { kind: FailureKind::AlreadyExists, message: "exists".into() })
        } else {
            Ok(())
        };
        if let Some(f) = c.put_created(hash, created) {
            return settle(files, f);
        }
    }
    files.insert(plan.path.clone(), data.to_vec());
    match c.put_written(hash, data, Ok(())) {
        PutNext::Finish(f) => settle(files, f),
        PutNext::WriteSidecar { path, digest } => {
            files.insert(path, digest.into_bytes());
            let f = c.put_sidecar_written(hash, Ok(()));
            settle(files, f)
        }
    }
}

fn disk_get(c: &DiskCache, files: &mut Files, hash: &str) -> Result<Vec<u8>, CacheError> {
    let path = c.artifact_path(hash);
    let data = match files.get(&path) {
        Some(d) => d.clone(),
        None => {
            let failure = BackendFailure { kind: FailureKind::NotFound, message: "missing".into() };
            return match c.get_read(hash, Err(failure)) {
                GetNext::Finish(f) => settle(files, f).map(|_| Vec::new()),
                GetNext::ReadSidecar { .. } => panic!("no sidecar read for a missing entry"),
            };
        }
    };
    match c.get_read(hash, Ok(&data)) {
        GetNext::Finish(f) => settle(files, f)?,
        GetNext::ReadSidecar { path } => {
            let text = files.get(&path).and_then(|b| String::from_utf8(b.clone()).ok());
            let f = c.get_checked(hash, &data, text);
            settle(files, f)?
        }
    }
    Ok(data)
}

#[test]
fn disk_read_returns_write() {
    for (write_once, verify) in [(false, false), (true, false), (true, true), (false, true)] {
        let c = DiskCache::new("/cache", write_once, verify);
        let mut files = Files::new();
        disk_put(&c, &mut files, "ab12", b"artifact").unwrap();
        assert_eq!(disk_get(&c, &mut files, "ab12").unwrap(), b"artifact".to_vec());
        assert_eq!(files.contains_key("/cache/ab12.sha256"), verify);
        assert!(matches!(disk_get(&c, &mut files, "cd34"), Err(CacheError::NotFound(_))));
    }
}

#[test]
fn disk_first_write_wins() {
    let c = DiskCache::new("/cache", true, true);
    let mut files = Files::new();
    disk_put(&c, &mut files, "ab12", b"first").unwrap();
    let before = files.clone();
    assert!(matches!(disk_put(&c, &mut files, "ab12", b"second"), Err(CacheError::AlreadyExists(ref h)) if h == "ab12"));
    assert_eq!(files, before);
    assert_eq!(disk_get(&c, &mut files, "ab12").unwrap(), b"first".to_vec());
}

#[test]
fn disk_last_write_wins_when_open() {
    let c = DiskCache::new("/cache", false, false);
    let mut files = Files::new();
    disk_put(&c, &mut files, "ab12", b"first").unwrap();
    disk_put(&c, &mut files, "ab12", b"second").unwrap();
    assert_eq!(disk_get(&c, &mut files, "ab12").unwrap(), b"second".to_vec());
}

#[test]
fn disk_bit_rot_is_detected_and_purged() {
    let c = DiskCache::new("/cache", true, true);
    let mut files = Files::new();
    disk_put(&c, &mut files, "ab12", b"artifact").unwrap();
    files.insert("/cache/ab12".to_string(), b"artifacT".to_vec());
    assert!(matches!(disk_get(&c, &mut files, "ab12"), Err(CacheError::Corrupted(_))));
    assert!(files.is_empty());
    assert!(matches!(disk_get(&c, &mut files, "ab12"), Err(CacheError::NotFound(_))));
}

fn object_put(c: &ObjectStoreCache, objects: &mut Files, hash: &str, data: &[u8]) -> Result<(), CacheError> {
    let plan = c.put_plan(hash);
    let stored = if plan.mode == WriteMode::CreateNew && objects.contains_key(&plan.path) {
        Err(BackendFailure { kind: FailureKind::AlreadyExists, message: "exists".into() })
    } else {
        objects.insert(plan.path.clone(), data.to_vec());
        Ok(())
    };
    match c.put_stored(hash, data, stored) {
        PutNext::Finish(f) => settle(objects, f),
        PutNext::WriteSidecar { path, digest } => {
            objects.insert(path, digest.into_bytes());
            let f = c.put_sidecar_stored(hash, Ok(()));
            settle(objects, f)
        }
    }
}

fn object_get(c: &ObjectStoreCache, objects: &mut Files, hash: &str) -> Result<Vec<u8>, CacheError> {
    let artifact = objects.get(&c.artifact_path(hash)).cloned();
    let sidecar = if c.verifies_integrity() { objects.get(&c.sidecar_path(hash)).cloned() } else { None };
    match artifact {
        Some(data) => {
            let f = c.get_fetched(hash, Ok(&data), sidecar.as_deref());
            settle(objects, f)?;
            Ok(data)
        }
        None => {
            let failure = BackendFailure { kind: FailureKind::NotFound, message: "404".into() };
            let f = c.get_fetched(hash, Err(FetchFailure::Request(failure)), None);
            settle(objects, f).map(|_| Vec::new())
        }
    }
}

#[test]
fn object_store_read_returns_write_and_first_write_wins() {
    let c = ObjectStoreCache::new(Some("nx".into()), true, true);
    let mut objects = Files::new();
    object_put(&c, &mut objects, "ab12", b"first").unwrap();
    assert_eq!(object_get(&c, &mut objects, "ab12").unwrap(), b"first".to_vec());
    let before = objects.clone();
    assert!(matches!(object_put(&c, &mut objects, "ab12", b"second"), Err(CacheError::AlreadyExists(_))));
    assert_eq!(objects, before);
    objects.insert("nx/ab12".to_string(), b"tampered".to_vec());
    assert!(matches!(object_get(&c, &mut objects, "ab12"), Err(CacheError::Corrupted(_))));
    assert!(objects.is_empty());
}
