//! The layout and the decisions of the two cache stores: a directory on disk
//! and an S3-compatible object store.
//!
//! A store operation alternates backend work and decisions. The functions
//! here take the outcome of each piece of backend work and say what to do
//! next; the caller performs the reads, writes and removals they name.
use vstd::prelude::*;
use super::errors::{BackendFailure, CacheError, CacheErrorView, FailureKind};
use crate::digest::{digest_text, integrity_ok, sha256_hex};
use crate::text::{trim, trim_ws, utf8_lossy, utf8_lossy_chars};

verus! {

/// `Path::new(dir).join(name)` on Unix: an absolute `name` replaces `dir`;
/// otherwise a `/` separates the two where `dir` is not empty and does not end
/// with one.
pub open spec fn join_path(dir: Seq<char>, name: Seq<char>) -> Seq<char> {
    if name.len() > 0 && name[0] == '/' {
        name
    } else if dir.len() > 0 && dir.last() != '/' {
        dir + seq!['/'] + name
    } else {
        dir + name
    }
}

pub fn join(dir: &str, name: &str) -> (r: String)
    ensures
        r@ == join_path(dir@, name@),
{
    let n = name.unicode_len();
    if n > 0 && name.get_char(0) == '/' {
        return name.to_string();
    }
    let d = dir.unicode_len();
    let mut r = dir.to_string();
    if d > 0 && dir.get_char(d - 1) != '/' {
        r.append("/");
        proof {
            reveal_strlit("/");
        }
    }
    r.append(name);
    r
}

/// The name of the digest sidecar of the entry `hash`.
pub open spec fn sidecar_name(hash: Seq<char>) -> Seq<char> {
    hash + ".sha256"@
}

/// What the caller does with the outcome of an operation: removes the
/// `remove` paths, ignoring whether that succeeds, then answers `result`
/// (on a read, `Ok` delivers the data read).
pub struct Finish {
    pub remove: Vec<String>,
    pub result: Result<(), CacheError>,
}

pub struct FinishView {
    pub remove: Seq<Seq<char>>,
    pub result: Result<(), CacheErrorView>,
}

impl View for Finish {
    type V = FinishView;

    open spec fn view(&self) -> FinishView {
        FinishView {
            remove: self.remove.deep_view(),
            result: match self.result {
                Ok(()) => Ok(()),
                Err(e) => Err(e@),
            },
        }
    }
}

pub open spec fn done(result: Result<(), CacheErrorView>) -> FinishView {
    FinishView { remove: Seq::empty(), result }
}

fn finish(remove: Vec<String>, result: Result<(), CacheError>) -> (r: Finish)
    ensures
        r.remove == remove,
        r.result == result,
{
    Finish { remove, result }
}

/// How the entry is written: created only where no file exists yet (the first
/// writer wins), or written over whatever is there.
#[derive(Clone, Copy, PartialEq, Eq, Structural, Debug)]
pub enum WriteMode {
    CreateNew,
    Overwrite,
}

/// The first step of a write: write the payload to `path` in `mode`.
pub struct PutPlan {
    pub path: String,
    pub mode: WriteMode,
}

/// What follows the payload's write.
pub enum PutNext {
    /// Write `digest` as the whole contents of the sidecar `path`.
    WriteSidecar { path: String, digest: String },
    Finish(Finish),
}

/// What follows the read of an entry.
pub enum GetNext {
    /// Read the sidecar `path` as text, then check the entry against it.
    ReadSidecar { path: String },
    Finish(Finish),
}

/// A `BackendFailure` with its message as characters.
pub struct FailureView {
    pub kind: FailureKind,
    pub message: Seq<char>,
}

impl View for BackendFailure {
    type V = FailureView;

    open spec fn view(&self) -> FailureView {
        FailureView { kind: self.kind, message: self.message@ }
    }
}

/// The outcome of a backend write or removal, messages as characters.
pub open spec fn outcome_view(r: Result<(), BackendFailure>) -> Result<(), FailureView> {
    match r {
        Ok(()) => Ok(()),
        Err(f) => Err(f@),
    }
}

/// The outcome of a backend read, data and messages as sequences.
pub open spec fn read_view(r: Result<&[u8], BackendFailure>) -> Result<Seq<u8>, FailureView> {
    match r {
        Ok(d) => Ok(d@),
        Err(f) => Err(f@),
    }
}

pub open spec fn finish_option_view(r: Option<Finish>) -> Option<FinishView> {
    match r {
        Some(f) => Some(f@),
        None => None,
    }
}

pub enum PutNextView {
    WriteSidecar { path: Seq<char>, digest: Seq<char> },
    Finish(FinishView),
}

impl View for PutNext {
    type V = PutNextView;

    open spec fn view(&self) -> PutNextView {
        match self {
            PutNext::WriteSidecar { path, digest } => PutNextView::WriteSidecar {
                path: path@,
                digest: digest@,
            },
            PutNext::Finish(f) => PutNextView::Finish(f@),
        }
    }
}

pub enum GetNextView {
    ReadSidecar { path: Seq<char> },
    Finish(FinishView),
}

impl View for GetNext {
    type V = GetNextView;

    open spec fn view(&self) -> GetNextView {
        match self {
            GetNext::ReadSidecar { path } => GetNextView::ReadSidecar { path: path@ },
            GetNext::Finish(f) => GetNextView::Finish(f@),
        }
    }
}

/// Entries as files in one directory: each under its hash, its digest (when
/// integrity is verified) in the file of the hash with `.sha256` appended.
pub struct DiskCache {
    cache_dir: String,
    /// When true, `O_CREAT|O_EXCL` ensures each hash can only be written once.
    write_once: bool,
    /// When true, a SHA-256 sidecar is stored on PUT and verified on GET.
    verify_integrity: bool,
}

impl DiskCache {
    pub closed spec fn dir(&self) -> Seq<char> {
        self.cache_dir@
    }

    pub closed spec fn is_write_once(&self) -> bool {
        self.write_once
    }

    pub closed spec fn verifies(&self) -> bool {
        self.verify_integrity
    }

    pub fn new(cache_dir: &str, write_once: bool, verify_integrity: bool) -> (r: DiskCache)
        ensures
            r.dir() == cache_dir@,
            r.is_write_once() == write_once,
            r.verifies() == verify_integrity,
    {
        DiskCache { cache_dir: cache_dir.to_string(), write_once, verify_integrity }
    }

    pub open spec fn artifact_of(&self, hash: Seq<char>) -> Seq<char> {
        join_path(self.dir(), hash)
    }

    pub open spec fn sidecar_of(&self, hash: Seq<char>) -> Seq<char> {
        join_path(self.dir(), sidecar_name(hash))
    }

    /// What follows an attempt to create the file of `hash` (`None`: write
    /// the payload into it).
    pub open spec fn created_next(&self, hash: Seq<char>, created: Result<(), FailureView>) -> Option<FinishView> {
        match created {
            Ok(()) => None,
            Err(f) => Some(
                done(
                    Err(
                        if f.kind == FailureKind::AlreadyExists {
                            CacheErrorView::AlreadyExists(hash)
                        } else {
                            CacheErrorView::Io(f.message)
                        },
                    ),
                ),
            ),
        }
    }

    /// What follows the write of the payload `data` of `hash`.
    pub open spec fn written_next(&self, hash: Seq<char>, data: Seq<u8>, written: Result<(), FailureView>) -> PutNextView {
        match written {
            Err(f) => PutNextView::Finish(
                FinishView {
                    remove: if self.is_write_once() {
                        seq![self.artifact_of(hash)]
                    } else {
                        Seq::empty()
                    },
                    result: Err(CacheErrorView::Io(f.message)),
                },
            ),
            Ok(()) => if self.verifies() {
                PutNextView::WriteSidecar { path: self.sidecar_of(hash), digest: digest_text(data) }
            } else {
                PutNextView::Finish(done(Ok(())))
            },
        }
    }

    /// What follows the write of the sidecar of `hash`.
    pub open spec fn sidecar_written_finish(&self, hash: Seq<char>, written: Result<(), FailureView>) -> FinishView {
        match written {
            Ok(()) => done(Ok(())),
            Err(f) => FinishView {
                remove: seq![self.artifact_of(hash)],
                result: Err(CacheErrorView::Io(f.message)),
            },
        }
    }

    /// What follows the read of the file of `hash`.
    pub open spec fn read_next(&self, hash: Seq<char>, read: Result<Seq<u8>, FailureView>) -> GetNextView {
        match read {
            Err(f) => GetNextView::Finish(
                done(
                    Err(
                        if f.kind == FailureKind::NotFound {
                            CacheErrorView::NotFound(hash)
                        } else {
                            CacheErrorView::Io(f.message)
                        },
                    ),
                ),
            ),
            Ok(_) => if self.verifies() {
                GetNextView::ReadSidecar { path: self.sidecar_of(hash) }
            } else {
                GetNextView::Finish(done(Ok(())))
            },
        }
    }

    /// The outcome of checking `data`, read for `hash`, against the text of
    /// its sidecar (`None`: it could not be read as text).
    pub open spec fn checked_finish(&self, hash: Seq<char>, data: Seq<u8>, sidecar: Option<Seq<char>>) -> FinishView {
        check_outcome(
            self.artifact_of(hash),
            self.sidecar_of(hash),
            hash,
            data,
            match sidecar {
                Some(s) => trim_ws(s),
                None => Seq::empty(),
            },
        )
    }

    /// The file of the entry `hash`.
    pub fn artifact_path(&self, hash: &str) -> (r: String)
        ensures
            r@ == self.artifact_of(hash@),
    {
        join(self.cache_dir.as_str(), hash)
    }

    /// The digest sidecar of the entry `hash`.
    pub fn sidecar_path(&self, hash: &str) -> (r: String)
        ensures
            r@ == self.sidecar_of(hash@),
    {
        let name = hash.to_string().concat(".sha256");
        join(self.cache_dir.as_str(), name.as_str())
    }

    /// Writing an entry starts with the payload: in a write-once store the file
    /// is created only where none exists yet.
    pub fn put_plan(&self, hash: &str) -> (r: PutPlan)
        ensures
            r.path@ == self.artifact_of(hash@),
            r.mode == if self.is_write_once() {
                WriteMode::CreateNew
            } else {
                WriteMode::Overwrite
            },
    {
        PutPlan {
            path: self.artifact_path(hash),
            mode: if self.write_once {
                WriteMode::CreateNew
            } else {
                WriteMode::Overwrite
            },
        }
    }

    /// After an attempt to create the entry's file in `CreateNew` mode: `None`
    /// when it was created (write the payload into it next); a file already
    /// there means the entry exists.
    pub fn put_created(&self, hash: &str, created: Result<(), BackendFailure>) -> (r: Option<
        Finish,
    >)
        ensures
            finish_option_view(r) == self.created_next(hash@, outcome_view(created)),
    {
        match created {
            Ok(()) => None,
            Err(f) => {
                let e = if f.kind == FailureKind::AlreadyExists {
                    CacheError::AlreadyExists(hash.to_string())
                } else {
                    CacheError::Io(f.message)
                };
                let r = finish(Vec::new(), Err(e));
                assert(r@.remove =~= Seq::<Seq<char>>::empty());
                Some(r)
            },
        }
    }

    /// After the payload was written: a failed write into a newly created
    /// file removes that file; a stored payload is followed by its digest
    /// where integrity is verified.
    pub fn put_written(&self, hash: &str, data: &[u8], written: Result<(), BackendFailure>) -> (r:
        PutNext)
        ensures
            r@ == self.written_next(hash@, data@, outcome_view(written)),
    {
        match written {
            Err(f) => {
                let mut remove: Vec<String> = Vec::new();
                if self.write_once {
                    remove.push(self.artifact_path(hash));
                }
                let r = finish(remove, Err(CacheError::Io(f.message)));
                assert(r@.remove =~= if self.is_write_once() {
                    seq![self.artifact_of(hash@)]
                } else {
                    Seq::empty()
                });
                PutNext::Finish(r)
            },
            Ok(()) => {
                if self.verify_integrity {
                    PutNext::WriteSidecar { path: self.sidecar_path(hash), digest: sha256_hex(data) }
                } else {
                    let r = finish(Vec::new(), Ok(()));
                    assert(r@.remove =~= Seq::<Seq<char>>::empty());
                    PutNext::Finish(r)
                }
            },
        }
    }

    /// After the digest sidecar was written: a failure removes the entry.
    pub fn put_sidecar_written(&self, hash: &str, written: Result<(), BackendFailure>) -> (r:
        Finish)
        ensures
            r@ == self.sidecar_written_finish(hash@, outcome_view(written)),
    {
        match written {
            Ok(()) => {
                let r = finish(Vec::new(), Ok(()));
                assert(r@.remove =~= Seq::<Seq<char>>::empty());
                r
            },
            Err(f) => {
                let mut remove: Vec<String> = Vec::new();
                remove.push(self.artifact_path(hash));
                let r = finish(remove, Err(CacheError::Io(f.message)));
                assert(r@.remove =~= seq![self.artifact_of(hash@)]);
                r
            },
        }
    }

    /// After the entry's file was read: a missing file is a miss; the data is
    /// delivered as read, or first checked against its sidecar where
    /// integrity is verified.
    pub fn get_read(&self, hash: &str, read: Result<&[u8], BackendFailure>) -> (r: GetNext)
        ensures
            r@ == self.read_next(hash@, read_view(read)),
    {
        match read {
            Err(f) => {
                let e = if f.kind == FailureKind::NotFound {
                    CacheError::NotFound(hash.to_string())
                } else {
                    CacheError::Io(f.message)
                };
                let r = finish(Vec::new(), Err(e));
                assert(r@.remove =~= Seq::<Seq<char>>::empty());
                GetNext::Finish(r)
            },
            Ok(_) => {
                if self.verify_integrity {
                    GetNext::ReadSidecar { path: self.sidecar_path(hash) }
                } else {
                    let r = finish(Vec::new(), Ok(()));
                    assert(r@.remove =~= Seq::<Seq<char>>::empty());
                    GetNext::Finish(r)
                }
            },
        }
    }

    /// Checks `data`, read for `hash`, against the text read from its sidecar
    /// (`None` where it could not be read as text, which counts as empty): on
    /// a mismatch the entry and its sidecar are purged.
    pub fn get_checked(&self, hash: &str, data: &[u8], sidecar: Option<String>) -> (r: Finish)
        ensures
            r@ == self.checked_finish(
                hash@,
                data@,
                match sidecar {
                    Some(s) => Some(s@),
                    None => None,
                },
            ),
    {
        let expected = match sidecar {
            Some(s) => trim(s.as_str()),
            None => String::new(),
        };
        checked(self.artifact_path(hash), self.sidecar_path(hash), hash, data, expected.as_str())
    }
}

/// The outcome of checking the entry `hash` (`data`, stored at `artifact`
/// with its digest at `sidecar`) against the `expected` digest text.
pub open spec fn check_outcome(
    artifact: Seq<char>,
    sidecar: Seq<char>,
    hash: Seq<char>,
    data: Seq<u8>,
    expected: Seq<char>,
) -> FinishView {
    if digest_text(data) == expected {
        done(Ok(()))
    } else {
        FinishView {
            remove: seq![artifact, sidecar],
            result: Err(CacheErrorView::Corrupted(hash)),
        }
    }
}

fn checked(artifact: String, sidecar: String, hash: &str, data: &[u8], expected: &str) -> (r:
    Finish)
    ensures
        r@ == check_outcome(artifact@, sidecar@, hash@, data@, expected@),
{
    if integrity_ok(hash, data, expected) {
        let r = finish(Vec::new(), Ok(()));
        assert(r@.remove =~= Seq::<Seq<char>>::empty());
        r
    } else {
        let ghost a = artifact@;
        let ghost s = sidecar@;
        let mut remove: Vec<String> = Vec::new();
        remove.push(artifact);
        remove.push(sidecar);
        let r = finish(remove, Err(CacheError::Corrupted(hash.to_string())));
        assert(r@.remove =~= seq![a, s]);
        r
    }
}


// ---------------------------------------------------------------------------
// Object store.
/// How fetching an object failed: the request itself, or reading its body.
pub enum FetchFailure {
    Request(BackendFailure),
    Body(String),
}

pub enum FetchFailureView {
    Request(FailureView),
    Body(Seq<char>),
}

/// The outcome of fetching an object, data and messages as sequences.
pub open spec fn fetch_view(r: Result<&[u8], FetchFailure>) -> Result<Seq<u8>, FetchFailureView> {
    match r {
        Ok(d) => Ok(d@),
        Err(FetchFailure::Request(f)) => Err(FetchFailureView::Request(f@)),
        Err(FetchFailure::Body(m)) => Err(FetchFailureView::Body(m@)),
    }
}

/// Entries as objects under an optional key prefix: each under its hash, its
/// digest (when integrity is verified) under the hash with `.sha256` appended.
pub struct ObjectStoreCache {
    prefix: String,
    write_once: bool,
    verify_integrity: bool,
}

/// The key of `name` under `prefix`.
pub open spec fn object_key(prefix: Seq<char>, name: Seq<char>) -> Seq<char> {
    if prefix.len() == 0 {
        name
    } else {
        prefix + seq!['/'] + name
    }
}

impl ObjectStoreCache {
    pub closed spec fn key_prefix(&self) -> Seq<char> {
        self.prefix@
    }

    pub closed spec fn is_write_once(&self) -> bool {
        self.write_once
    }

    pub closed spec fn verifies(&self) -> bool {
        self.verify_integrity
    }

    /// Whether entries are checked against a SHA-256 sidecar.
    pub fn verifies_integrity(&self) -> (r: bool)
        ensures
            r == self.verifies(),
    {
        self.verify_integrity
    }

    /// A store under `prefix` (none: the empty prefix).
    pub fn new(prefix: Option<String>, write_once: bool, verify_integrity: bool) -> (r:
        ObjectStoreCache)
        ensures
            r.key_prefix() == match prefix {
                Some(p) => p@,
                None => Seq::empty(),
            },
            r.is_write_once() == write_once,
            r.verifies() == verify_integrity,
    {
        let prefix = match prefix {
            Some(p) => p,
            None => String::new(),
        };
        ObjectStoreCache { prefix, write_once, verify_integrity }
    }

    pub open spec fn artifact_of(&self, hash: Seq<char>) -> Seq<char> {
        object_key(self.key_prefix(), hash)
    }

    pub open spec fn sidecar_of(&self, hash: Seq<char>) -> Seq<char> {
        object_key(self.key_prefix(), sidecar_name(hash))
    }

    /// What follows the store of the payload `data` of `hash`.
    pub open spec fn stored_next(&self, hash: Seq<char>, data: Seq<u8>, stored: Result<(), FailureView>) -> PutNextView {
        match stored {
            Err(f) => PutNextView::Finish(
                done(
                    Err(
                        if self.is_write_once() && f.kind == FailureKind::AlreadyExists {
                            CacheErrorView::AlreadyExists(hash)
                        } else {
                            CacheErrorView::ObjectStore(f.message)
                        },
                    ),
                ),
            ),
            Ok(()) => if self.verifies() {
                PutNextView::WriteSidecar { path: self.sidecar_of(hash), digest: digest_text(data) }
            } else {
                PutNextView::Finish(done(Ok(())))
            },
        }
    }

    /// What follows the store of the sidecar of `hash`.
    pub open spec fn sidecar_stored_finish(&self, hash: Seq<char>, stored: Result<(), FailureView>) -> FinishView {
        match stored {
            Ok(()) => done(Ok(())),
            Err(f) => FinishView {
                remove: seq![self.artifact_of(hash)],
                result: Err(CacheErrorView::ObjectStore(f.message)),
            },
        }
    }

    /// The outcome of fetching `hash` and, where integrity is verified, the
    /// body of its sidecar (`None`: that fetch failed).
    pub open spec fn fetched_finish(&self, hash: Seq<char>, artifact: Result<Seq<u8>, FetchFailureView>, sidecar: Option<Seq<u8>>) -> FinishView {
        match artifact {
            Err(FetchFailureView::Request(f)) => done(
                Err(
                    if f.kind == FailureKind::NotFound {
                        CacheErrorView::NotFound(hash)
                    } else {
                        CacheErrorView::ObjectStore(f.message)
                    },
                ),
            ),
            Err(FetchFailureView::Body(m)) => done(Err(CacheErrorView::ObjectStore(m))),
            Ok(data) => if self.verifies() {
                check_outcome(
                    self.artifact_of(hash),
                    self.sidecar_of(hash),
                    hash,
                    data,
                    match sidecar {
                        Some(b) => trim_ws(utf8_lossy_chars(b)),
                        None => Seq::empty(),
                    },
                )
            } else {
                done(Ok(()))
            },
        }
    }

    fn key(&self, name: &str) -> (r: String)
        ensures
            r@ == object_key(self.key_prefix(), name@),
    {
        if self.prefix.as_str().unicode_len() == 0 {
            name.to_string()
        } else {
            proof {
                reveal_strlit("/");
            }
            self.prefix.clone().concat("/").concat(name)
        }
    }

    /// The key of the entry `hash`.
    pub fn artifact_path(&self, hash: &str) -> (r: String)
        ensures
            r@ == self.artifact_of(hash@),
    {
        self.key(hash)
    }

    /// The key of the digest sidecar of the entry `hash`.
    pub fn sidecar_path(&self, hash: &str) -> (r: String)
        ensures
            r@ == self.sidecar_of(hash@),
    {
        let name = hash.to_string().concat(".sha256");
        self.key(name.as_str())
    }

    /// The prefix under which entries are listed: none for the empty prefix.
    pub fn list_prefix(&self) -> (r: Option<String>)
        ensures
            self.key_prefix().len() == 0 ==> r is None,
            self.key_prefix().len() > 0 ==> (r matches Some(p) && p@ == self.key_prefix()),
    {
        if self.prefix.as_str().unicode_len() == 0 {
            None
        } else {
            Some(self.prefix.clone())
        }
    }

    /// Writing an entry starts with the payload: in a write-once store the
    /// object is created only where none exists yet.
    pub fn put_plan(&self, hash: &str) -> (r: PutPlan)
        ensures
            r.path@ == self.artifact_of(hash@),
            r.mode == if self.is_write_once() {
                WriteMode::CreateNew
            } else {
                WriteMode::Overwrite
            },
    {
        PutPlan {
            path: self.artifact_path(hash),
            mode: if self.write_once {
                WriteMode::CreateNew
            } else {
                WriteMode::Overwrite
            },
        }
    }

    /// After the payload was stored: an existing object in a write-once store
    /// means the entry exists; a stored payload is followed by its digest
    /// where integrity is verified.
    pub fn put_stored(&self, hash: &str, data: &[u8], stored: Result<(), BackendFailure>) -> (r:
        PutNext)
        ensures
            r@ == self.stored_next(hash@, data@, outcome_view(stored)),
    {
        match stored {
            Err(f) => {
                let e = if self.write_once && f.kind == FailureKind::AlreadyExists {
                    CacheError::AlreadyExists(hash.to_string())
                } else {
                    CacheError::ObjectStore(f.message)
                };
                let r = finish(Vec::new(), Err(e));
                assert(r@.remove =~= Seq::<Seq<char>>::empty());
                PutNext::Finish(r)
            },
            Ok(()) => {
                if self.verify_integrity {
                    PutNext::WriteSidecar { path: self.sidecar_path(hash), digest: sha256_hex(data) }
                } else {
                    let r = finish(Vec::new(), Ok(()));
                    assert(r@.remove =~= Seq::<Seq<char>>::empty());
                    PutNext::Finish(r)
                }
            },
        }
    }

    /// After the digest sidecar was stored: a failure removes the entry.
    pub fn put_sidecar_stored(&self, hash: &str, stored: Result<(), BackendFailure>) -> (r:
        Finish)
        ensures
            r@ == self.sidecar_stored_finish(hash@, outcome_view(stored)),
    {
        match stored {
            Ok(()) => {
                let r = finish(Vec::new(), Ok(()));
                assert(r@.remove =~= Seq::<Seq<char>>::empty());
                r
            },
            Err(f) => {
                let mut remove: Vec<String> = Vec::new();
                remove.push(self.artifact_path(hash));
                let r = finish(remove, Err(CacheError::ObjectStore(f.message)));
                assert(r@.remove =~= seq![self.artifact_of(hash@)]);
                r
            },
        }
    }

    /// After fetching the entry `hash` and, where integrity is verified, its
    /// sidecar (`None` where that fetch or the read of its body failed, which
    /// counts as an empty digest): a missing object is a miss; the data is
    /// checked against the sidecar's trimmed text where integrity is verified.
    pub fn get_fetched(
        &self,
        hash: &str,
        artifact: Result<&[u8], FetchFailure>,
        sidecar: Option<&[u8]>,
    ) -> (r: Finish)
        ensures
            r@ == self.fetched_finish(
                hash@,
                fetch_view(artifact),
                match sidecar {
                    Some(b) => Some(b@),
                    None => None,
                },
            ),
    {
        match artifact {
            Err(FetchFailure::Request(f)) => {
                let e = if f.kind == FailureKind::NotFound {
                    CacheError::NotFound(hash.to_string())
                } else {
                    CacheError::ObjectStore(f.message)
                };
                let r = finish(Vec::new(), Err(e));
                assert(r@.remove =~= Seq::<Seq<char>>::empty());
                r
            },
            Err(FetchFailure::Body(m)) => {
                let r = finish(Vec::new(), Err(CacheError::ObjectStore(m)));
                assert(r@.remove =~= Seq::<Seq<char>>::empty());
                r
            },
            Ok(data) => {
                if self.verify_integrity {
                    let expected = match sidecar {
                        Some(b) => trim(utf8_lossy(b).as_str()),
                        None => String::new(),
                    };
                    checked(
                        self.artifact_path(hash),
                        self.sidecar_path(hash),
                        hash,
                        data,
                        expected.as_str(),
                    )
                } else {
                    let r = finish(Vec::new(), Ok(()));
                    assert(r@.remove =~= Seq::<Seq<char>>::empty());
                    r
                }
            },
        }
    }
}

/// Whether the store answers: the probe of a health-check key either found it
/// or reported it missing.
pub fn head_means_accessible(probe: Result<(), BackendFailure>) -> (r: bool)
    ensures
        r == match probe {
            Ok(()) => true,
            Err(f) => f.kind == FailureKind::NotFound,
        },
{
    match probe {
        Ok(()) => true,
        Err(f) => f.kind == FailureKind::NotFound,
    }
}

} // verus!
