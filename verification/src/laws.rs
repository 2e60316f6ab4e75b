//! Properties of the cache that span several operations.
use vstd::prelude::*;
use crate::cache::errors::CacheErrorView;
use crate::cache::errors::FailureKind;
use crate::cache::evict::{
    extension_of, has_extension, is_sidecar_file, is_sidecar_key, last_dot, sha256_ext, sidecar_file,
};
use crate::cache::store::{
    check_outcome, done, join_path, object_key, sidecar_name, DiskCache, FailureView, FetchFailureView,
    FinishView, GetNextView, ObjectStoreCache, PutNextView,
};
use vstd::utf8::{decode_utf8, encode_utf8, valid_utf8};
use crate::digest::{digest_text, hex_lower, sha256};
use crate::auth::{bearer_token, header_text, is_visible, AuthOutcomeView, RequestHeaders};
use crate::k8s::{review_result, service_account_of, ReviewOutcomeView, ReviewReply};
use crate::config::{level_named, SecurityLevel};
use crate::gate::{declared_length, is_hex_digit, length_mismatch, valid_hash, AccessPolicy, AdmissionView, Op};
use crate::text::{is_digit, all_digits, ascii_chars, ascii_lower, decimal_digits, digits_value, is_ws, lower_eq, lemma_ascii_decode, trim_end, trim_start, trim_ws, utf8_lossy_chars};
use crate::tracker::{
    after_failure, counted, in_window, limited, open_windows, IpKey, MAX_TRACKED,
    RATE_MAX_FAILURES,
};

verus! {

/// A valid hash names a file directly inside the cache directory: the path
/// is the directory, one separator and the hash, and the hash holds neither
/// a separator nor a dot.
pub proof fn law_valid_hash_stays_in_dir(dir: Seq<char>, hash: Seq<char>)
    requires
        valid_hash(hash),
    ensures
        forall|i: int| 0 <= i < hash.len() ==> #[trigger] hash[i] != '/' && hash[i] != '.',
        dir.len() > 0 && dir.last() != '/' ==> join_path(dir, hash) == dir + seq!['/'] + hash,
        dir.len() == 0 || dir.last() == '/' ==> join_path(dir, hash) == dir + hash,
{
    assert forall|i: int| 0 <= i < hash.len() implies #[trigger] hash[i] != '/' && hash[i] != '.' by {
        assert(is_hex_digit(hash[i]));
    }
    assert(hash[0] != '/');
}

proof fn lemma_hex_not_ws(bytes: Seq<u8>)
    ensures
        forall|i: int| 0 <= i < hex_lower(bytes).len() ==> 48 <= #[trigger] hex_lower(bytes)[i] <= 102,
        hex_lower(bytes).len() == 2 * bytes.len(),
    decreases bytes.len(),
{
    if bytes.len() > 0 {
        lemma_hex_not_ws(bytes.drop_last());
    }
}

/// Digest text holds no whitespace, so trimming leaves it as it is.
proof fn lemma_digest_text_trimmed(data: Seq<u8>)
    ensures
        trim_ws(digest_text(data)) == digest_text(data),
{
    let t = digest_text(data);
    let h = hex_lower(sha256(data));
    lemma_hex_not_ws(sha256(data));
    assert forall|i: int| 0 <= i < t.len() implies !is_ws(#[trigger] t[i]) by {
        assert(t[i] == h[i] as char);
        assert(48 <= h[i] <= 102);
    }
    if t.len() > 0 {
        assert(!is_ws(t[0]));
        assert(trim_start(t) == t);
        assert(!is_ws(t.last()));
    } else {
        assert(trim_start(t) == t);
    }
    assert(trim_end(t) == t);
}

/// The digest that a write stores beside an entry makes a later read of the
/// same data pass the integrity check: read back from a disk sidecar as
/// text, the data is delivered and nothing removed.
pub proof fn law_stored_digest_verifies_on_disk(
    artifact: Seq<char>,
    sidecar: Seq<char>,
    hash: Seq<char>,
    data: Seq<u8>,
)
    ensures
        check_outcome(artifact, sidecar, hash, data, trim_ws(digest_text(data))) == done(Ok(())),
{
    lemma_digest_text_trimmed(data);
}

/// The same for an object store, whose sidecar object holds the digest
/// text's bytes and is read back through a lossy UTF-8 decoding.
pub proof fn law_stored_digest_verifies_in_object_store(
    artifact: Seq<char>,
    sidecar: Seq<char>,
    hash: Seq<char>,
    data: Seq<u8>,
)
    ensures
        check_outcome(
            artifact,
            sidecar,
            hash,
            data,
            trim_ws(utf8_lossy_chars(hex_lower(sha256(data)))),
        ) == done(Ok(())),
{
    let h = hex_lower(sha256(data));
    lemma_hex_not_ws(sha256(data));
    assert(crate::text::is_ascii_bytes(h)) by {
        assert forall|i: int| 0 <= i < h.len() implies #[trigger] h[i] < 128 by {
            assert(h[i] <= 102);
        }
    }
    lemma_ascii_decode(h);
    lemma_digest_text_trimmed(data);
}

/// An entry whose data no longer matches the digest stored for it (bit rot,
/// tampering) is never delivered: the read fails as corrupted, and the entry
/// and its sidecar are purged.
pub proof fn law_altered_entry_is_purged(
    artifact: Seq<char>,
    sidecar: Seq<char>,
    hash: Seq<char>,
    stored: Seq<u8>,
    read: Seq<u8>,
)
    requires
        digest_text(read) != digest_text(stored),
    ensures
        check_outcome(artifact, sidecar, hash, read, trim_ws(digest_text(stored))) == (FinishView {
            remove: seq![artifact, sidecar],
            result: Err(CacheErrorView::Corrupted(hash)),
        }),
{
    lemma_digest_text_trimmed(stored);
}

/// The tracker after `n` failures of `ip`, all at `now`.
pub type Failures = Map<IpKey, (u32, u64)>;

pub open spec fn failures_at(m: Failures, ip: IpKey, now: u64, n: nat) -> Failures
    decreases n,
{
    if n == 0 {
        m
    } else {
        after_failure(failures_at(m, ip, now, (n - 1) as nat), ip, now)
    }
}

proof fn lemma_failures_count(m: Map<IpKey, (u32, u64)>, ip: IpKey, now: u64, n: nat)
    requires
        !(m.contains_key(ip) && in_window(m[ip].1, now)),
        1 <= n <= 10,
    ensures
        failures_at(m, ip, now, n).contains_key(ip),
        failures_at(m, ip, now, n)[ip] == (n as u32, now),
    decreases n,
{
    let prev = failures_at(m, ip, now, (n - 1) as nat);
    if n > 1 {
        lemma_failures_count(m, ip, now, (n - 1) as nat);
        assert(in_window(now, now));
    } else {
        assert(prev == m);
    }
    assert(counted(prev, ip, now) == (n as u32, now));
    let m2 = prev.insert(ip, counted(prev, ip, now));
    assert(in_window(now, now));
    if m2.len() > MAX_TRACKED {
        assert(open_windows(m2, now).contains_key(ip));
    }
}

/// Ten auth failures of one address within a window turn it away for the
/// rest of that window, and no longer once the window has passed.
pub proof fn law_failures_reach_limit(m: Map<IpKey, (u32, u64)>, ip: IpKey, now: u64, later: u64)
    requires
        !(m.contains_key(ip) && in_window(m[ip].1, now)),
    ensures
        in_window(now, later) ==> limited(failures_at(m, ip, now, RATE_MAX_FAILURES as nat), ip, later),
        !in_window(now, later) ==> !limited(
            failures_at(m, ip, now, RATE_MAX_FAILURES as nat),
            ip,
            later,
        ),
        !limited(failures_at(m, ip, now, (RATE_MAX_FAILURES - 1) as nat), ip, now),
{
    lemma_failures_count(m, ip, now, 10);
    lemma_failures_count(m, ip, now, 9);
}

/// The tracker after failures of `ip` at `times`, in order.
pub open spec fn failures_over(m: Failures, ip: IpKey, times: Seq<u64>) -> Failures
    decreases times.len(),
{
    if times.len() == 0 {
        m
    } else {
        after_failure(failures_over(m, ip, times.drop_last()), ip, times.last())
    }
}

/// Times on a monotonic clock, all within the window that the first opens.
pub open spec fn within_first_window(times: Seq<u64>) -> bool {
    &&& times.len() > 0
    &&& forall|i: int, j: int| 0 <= i <= j < times.len() ==> times[i] <= times[j]
    &&& forall|i: int| 0 <= i < times.len() ==> in_window(times[0], #[trigger] times[i])
}

proof fn lemma_failures_over_fresh(ip: IpKey, times: Seq<u64>)
    requires
        within_first_window(times),
        times.len() <= u32::MAX,
    ensures
        failures_over(Map::empty(), ip, times) == Map::<IpKey, (u32, u64)>::empty().insert(
            ip,
            (times.len() as u32, times[0]),
        ),
    decreases times.len(),
{
    let m0 = Map::<IpKey, (u32, u64)>::empty();
    let t0 = times[0];
    let last = times.last();
    assert(in_window(t0, times[times.len() - 1]));
    if times.len() == 1 {
        assert(times.drop_last() =~= Seq::<u64>::empty());
        assert(failures_over(m0, ip, times.drop_last()) == m0);
        assert(counted(m0, ip, last) == (1u32, t0));
        let m2 = m0.insert(ip, (1u32, t0));
        assert(m2.dom() =~= set![ip]);
        assert(m2.len() == 1);
    } else {
        let prev = times.drop_last();
        assert(within_first_window(prev)) by {
            assert(prev[0] == t0);
            assert forall|i: int| 0 <= i < prev.len() implies in_window(prev[0], #[trigger] prev[i]) by {
                assert(prev[i] == times[i]);
            }
        }
        lemma_failures_over_fresh(ip, prev);
        let pm = failures_over(m0, ip, prev);
        assert(pm[ip] == ((times.len() - 1) as u32, t0));
        assert(t0 <= last);
        assert(counted(pm, ip, last) == (times.len() as u32, t0));
        let m2 = pm.insert(ip, (times.len() as u32, t0));
        assert(m2 =~= m0.insert(ip, (times.len() as u32, t0)));
        assert(m2.dom() =~= set![ip]);
        assert(m2.len() == 1);
    }
}

/// An address that failed to authenticate at each of `times`, starting from
/// an empty tracker, all within 60 seconds of its first failure: at a time
/// `x` within that window it is turned away exactly when it failed at least
/// ten times; from the window's end on it is not; and no other address is
/// ever turned away.
pub proof fn law_failures_within_window(ip: IpKey, times: Seq<u64>, x: u64, other: IpKey)
    requires
        within_first_window(times),
        times.len() <= u32::MAX,
        other != ip,
    ensures
        in_window(times[0], x) ==> (limited(failures_over(Map::empty(), ip, times), ip, x) == (
        times.len() >= RATE_MAX_FAILURES)),
        !in_window(times[0], x) ==> !limited(failures_over(Map::empty(), ip, times), ip, x),
        !limited(failures_over(Map::empty(), ip, times), other, x),
{
    lemma_failures_over_fresh(ip, times);
}

/// A failure of one address changes whether no other address is turned
/// away: the tracker only drops addresses whose window has passed.
pub proof fn law_failure_leaves_others(
    m: Map<IpKey, (u32, u64)>,
    ip: IpKey,
    other: IpKey,
    now: u64,
)
    requires
        other != ip,
    ensures
        limited(after_failure(m, ip, now), other, now) == limited(m, other, now),
{
    let m2 = m.insert(ip, counted(m, ip, now));
    assert(m2.contains_key(other) == m.contains_key(other));
    if m.contains_key(other) {
        assert(m2[other] == m[other]);
    }
}


// ---------------------------------------------------------------------------
// Writes and reads against a backend that never fails.
/// The contents of a backend: data by path or key.
pub type Contents = Map<Seq<char>, Seq<u8>>;

/// `contents` without the `paths` that a finished operation removes.
pub open spec fn remove_all(contents: Contents, paths: Seq<Seq<char>>) -> Contents
    decreases paths.len(),
{
    if paths.len() == 0 {
        contents
    } else {
        remove_all(contents, paths.drop_last()).remove(paths.last())
    }
}

/// A read that finished with `result` on `data`.
pub open spec fn deliver(result: Result<(), CacheErrorView>, data: Seq<u8>) -> Result<Seq<u8>, CacheErrorView> {
    match result {
        Ok(()) => Ok(data),
        Err(e) => Err(e),
    }
}

/// What a reliable backend reports when a file or object exists already.
pub open spec fn exists_failure() -> FailureView {
    FailureView { kind: FailureKind::AlreadyExists, message: Seq::empty() }
}

/// What a reliable backend reports when a file or object is missing.
pub open spec fn missing_failure() -> FailureView {
    FailureView { kind: FailureKind::NotFound, message: Seq::empty() }
}

/// The disk store's steps, after its payload has been written.
pub open spec fn disk_after_payload(c: DiskCache, files: Contents, hash: Seq<char>, data: Seq<u8>) -> (Contents, Result<(), CacheErrorView>) {
    let files1 = files.insert(c.artifact_of(hash), data);
    match c.written_next(hash, data, Ok(())) {
        PutNextView::Finish(fin) => (remove_all(files1, fin.remove), fin.result),
        PutNextView::WriteSidecar { path, digest } => {
            let files2 = files1.insert(path, encode_utf8(digest));
            let fin = c.sidecar_written_finish(hash, Ok(()));
            (remove_all(files2, fin.remove), fin.result)
        },
    }
}

/// A write of `data` under `hash` to a directory holding `files`, where
/// every write succeeds and creating a file that exists fails.
pub open spec fn disk_put(c: DiskCache, files: Contents, hash: Seq<char>, data: Seq<u8>) -> (Contents, Result<(), CacheErrorView>) {
    if c.is_write_once() {
        let created = if files.contains_key(c.artifact_of(hash)) {
            Err(exists_failure())
        } else {
            Ok(())
        };
        match c.created_next(hash, created) {
            Some(fin) => (remove_all(files, fin.remove), fin.result),
            None => disk_after_payload(c, files, hash, data),
        }
    } else {
        disk_after_payload(c, files, hash, data)
    }
}

/// A read of `hash` from a directory holding `files` (a sidecar is read as
/// text where it is valid UTF-8).
pub open spec fn disk_get(c: DiskCache, files: Contents, hash: Seq<char>) -> (Contents, Result<Seq<u8>, CacheErrorView>) {
    let path = c.artifact_of(hash);
    let read = if files.contains_key(path) {
        Ok(files[path])
    } else {
        Err(missing_failure())
    };
    match c.read_next(hash, read) {
        GetNextView::Finish(fin) => (remove_all(files, fin.remove), deliver(fin.result, files[path])),
        GetNextView::ReadSidecar { path: sidecar } => {
            let text = if files.contains_key(sidecar) && valid_utf8(files[sidecar]) {
                Some(decode_utf8(files[sidecar]))
            } else {
                None
            };
            let fin = c.checked_finish(hash, files[path], text);
            (remove_all(files, fin.remove), deliver(fin.result, files[path]))
        },
    }
}

/// The object store's steps, after its payload has been stored.
pub open spec fn object_after_payload(c: ObjectStoreCache, objects: Contents, hash: Seq<char>, data: Seq<u8>) -> (Contents, Result<(), CacheErrorView>) {
    let objects1 = objects.insert(c.artifact_of(hash), data);
    match c.stored_next(hash, data, Ok(())) {
        PutNextView::Finish(fin) => (remove_all(objects1, fin.remove), fin.result),
        PutNextView::WriteSidecar { path, digest } => {
            let objects2 = objects1.insert(path, encode_utf8(digest));
            let fin = c.sidecar_stored_finish(hash, Ok(()));
            (remove_all(objects2, fin.remove), fin.result)
        },
    }
}

/// A write of `data` under `hash` to a store holding `objects`, where every
/// request succeeds and a create of an existing key fails.
pub open spec fn object_put(c: ObjectStoreCache, objects: Contents, hash: Seq<char>, data: Seq<u8>) -> (Contents, Result<(), CacheErrorView>) {
    if c.is_write_once() && objects.contains_key(c.artifact_of(hash)) {
        let fin = match c.stored_next(hash, data, Err(exists_failure())) {
            PutNextView::Finish(fin) => fin,
            PutNextView::WriteSidecar { .. } => done(Ok(())),
        };
        (remove_all(objects, fin.remove), fin.result)
    } else {
        object_after_payload(c, objects, hash, data)
    }
}

/// A read of `hash` from a store holding `objects`.
pub open spec fn object_get(c: ObjectStoreCache, objects: Contents, hash: Seq<char>) -> (Contents, Result<Seq<u8>, CacheErrorView>) {
    let path = c.artifact_of(hash);
    let sidecar = c.sidecar_of(hash);
    let fetched = if objects.contains_key(path) {
        Ok(objects[path])
    } else {
        Err(FetchFailureView::Request(missing_failure()))
    };
    let side = if c.verifies() && objects.contains_key(sidecar) {
        Some(objects[sidecar])
    } else {
        None
    };
    let fin = c.fetched_finish(hash, fetched, side);
    (remove_all(objects, fin.remove), deliver(fin.result, objects[path]))
}

proof fn lemma_sidecar_differs(dir: Seq<char>, hash: Seq<char>)
    ensures
        join_path(dir, hash) != join_path(dir, sidecar_name(hash)),
{
    reveal_strlit(".sha256");
    let s = sidecar_name(hash);
    assert(s.len() == hash.len() + 7);
    if hash.len() > 0 {
        assert(s[0] == hash[0]);
    } else {
        assert(s[0] == '.');
    }
    assert(join_path(dir, hash).len() != join_path(dir, s).len());
}

proof fn lemma_key_differs(prefix: Seq<char>, hash: Seq<char>)
    ensures
        crate::cache::store::object_key(prefix, hash) != crate::cache::store::object_key(
            prefix,
            sidecar_name(hash),
        ),
{
    reveal_strlit(".sha256");
    assert(sidecar_name(hash).len() == hash.len() + 7);
    assert(crate::cache::store::object_key(prefix, hash).len() != crate::cache::store::object_key(
        prefix,
        sidecar_name(hash),
    ).len());
}

/// Reading an entry back gives the data last written under its hash, also
/// where a digest sidecar is kept and checked (the disk store, its writes
/// and reads never failing).
pub proof fn law_disk_read_returns_write(c: DiskCache, files: Contents, hash: Seq<char>, data: Seq<u8>)
    requires
        !(c.is_write_once() && files.contains_key(c.artifact_of(hash))),
    ensures
        disk_put(c, files, hash, data).1 == Ok::<(), CacheErrorView>(()),
        disk_get(c, disk_put(c, files, hash, data).0, hash).1 == Ok::<Seq<u8>, CacheErrorView>(data),
{
    let after = disk_put(c, files, hash, data).0;
    let path = c.artifact_of(hash);
    lemma_sidecar_differs(c.dir(), hash);
    assert(remove_all(files.insert(path, data), Seq::empty()) == files.insert(path, data));
    if c.verifies() {
        let sidecar = c.sidecar_of(hash);
        let files2 = files.insert(path, data).insert(sidecar, encode_utf8(digest_text(data)));
        assert(remove_all(files2, Seq::empty()) == files2);
        assert(after == files2);
        assert(after[path] == data);
        vstd::utf8::encode_utf8_valid_utf8(digest_text(data));
        vstd::utf8::encode_utf8_decode_utf8(digest_text(data));
        lemma_digest_text_trimmed(data);
    }
}

/// In a write-once disk store a write under a hash already stored changes
/// nothing and fails with `AlreadyExists`: the first writer wins.
pub proof fn law_disk_first_write_wins(
    c: DiskCache,
    files: Contents,
    hash: Seq<char>,
    first: Seq<u8>,
    second: Seq<u8>,
)
    requires
        c.is_write_once(),
        !files.contains_key(c.artifact_of(hash)),
    ensures
        ({
            let after_first = disk_put(c, files, hash, first).0;
            &&& disk_put(c, after_first, hash, second) == (
            after_first,
            Err::<(), CacheErrorView>(CacheErrorView::AlreadyExists(hash)),
            )
            &&& disk_get(c, after_first, hash).1 == Ok::<Seq<u8>, CacheErrorView>(first)
        }),
{
    law_disk_read_returns_write(c, files, hash, first);
    let after_first = disk_put(c, files, hash, first).0;
    assert(after_first.contains_key(c.artifact_of(hash)));
    assert(remove_all(after_first, Seq::empty()) == after_first);
}

/// Without write-once, a later write under a hash replaces the earlier one.
pub proof fn law_disk_last_write_wins(
    c: DiskCache,
    files: Contents,
    hash: Seq<char>,
    first: Seq<u8>,
    second: Seq<u8>,
)
    requires
        !c.is_write_once(),
    ensures
        disk_get(c, disk_put(c, disk_put(c, files, hash, first).0, hash, second).0, hash).1 == Ok::<
            Seq<u8>,
            CacheErrorView,
        >(second),
{
    law_disk_read_returns_write(c, disk_put(c, files, hash, first).0, hash, second);
}

/// Reading an entry back from the object store gives the data last written
/// under its hash, also where a digest sidecar is kept and checked.
pub proof fn law_object_read_returns_write(c: ObjectStoreCache, objects: Contents, hash: Seq<char>, data: Seq<u8>)
    requires
        !(c.is_write_once() && objects.contains_key(c.artifact_of(hash))),
    ensures
        object_put(c, objects, hash, data).1 == Ok::<(), CacheErrorView>(()),
        object_get(c, object_put(c, objects, hash, data).0, hash).1 == Ok::<Seq<u8>, CacheErrorView>(data),
{
    let after = object_put(c, objects, hash, data).0;
    let path = c.artifact_of(hash);
    lemma_key_differs(c.key_prefix(), hash);
    assert(remove_all(objects.insert(path, data), Seq::empty()) == objects.insert(path, data));
    if c.verifies() {
        let sidecar = c.sidecar_of(hash);
        let objects2 = objects.insert(path, data).insert(sidecar, encode_utf8(digest_text(data)));
        assert(remove_all(objects2, Seq::empty()) == objects2);
        assert(after == objects2);
        vstd::utf8::encode_utf8_valid_utf8(digest_text(data));
        vstd::utf8::encode_utf8_decode_utf8(digest_text(data));
        lemma_digest_text_trimmed(data);
    }
}

/// In a write-once object store a write under a hash already stored changes
/// nothing and fails with `AlreadyExists`: the first writer wins.
pub proof fn law_object_first_write_wins(
    c: ObjectStoreCache,
    objects: Contents,
    hash: Seq<char>,
    first: Seq<u8>,
    second: Seq<u8>,
)
    requires
        c.is_write_once(),
        !objects.contains_key(c.artifact_of(hash)),
    ensures
        ({
            let after_first = object_put(c, objects, hash, first).0;
            &&& object_put(c, after_first, hash, second) == (
            after_first,
            Err::<(), CacheErrorView>(CacheErrorView::AlreadyExists(hash)),
            )
            &&& object_get(c, after_first, hash).1 == Ok::<Seq<u8>, CacheErrorView>(first)
        }),
{
    law_object_read_returns_write(c, objects, hash, first);
    let after_first = object_put(c, objects, hash, first).0;
    assert(after_first.contains_key(c.artifact_of(hash)));
    assert(remove_all(after_first, Seq::empty()) == after_first);
}


// ---------------------------------------------------------------------------
// Eviction removes the sidecar that a write stored.
proof fn lemma_no_dot(b: Seq<u8>)
    requires
        forall|j: int| 0 <= j < b.len() ==> b[j] != 46,
    ensures
        last_dot(b) == -1,
    decreases b.len(),
{
    if b.len() > 0 {
        lemma_no_dot(b.drop_last());
    }
}

proof fn lemma_last_dot_at(b: Seq<u8>, k: int)
    requires
        0 <= k < b.len(),
        b[k] == 46,
        forall|j: int| k < j < b.len() ==> b[j] != 46,
    ensures
        last_dot(b) == k,
    decreases b.len(),
{
    if b.len() - 1 != k {
        lemma_last_dot_at(b.drop_last(), k);
    }
}

proof fn lemma_ascii_encoding(cs: Seq<char>)
    requires
        forall|i: int| 0 <= i < cs.len() ==> (cs[i] as u32) < 128,
    ensures
        encode_utf8(cs).len() == cs.len(),
        forall|i: int| 0 <= i < cs.len() ==> encode_utf8(cs)[i] as u32 == cs[i] as u32,
{
    let b = Seq::new(cs.len(), |i: int| (cs[i] as u32) as u8);
    assert forall|i: int| 0 <= i < cs.len() implies crate::text::ascii_chars(b)[i] == cs[i] by {
        let u = cs[i] as u32;
        vstd::utf8::char_u32_cast(cs[i], u);
        assert(b[i] as u32 == u);
    }
    assert(crate::text::ascii_chars(b) =~= cs);
    assert(crate::text::is_ascii_bytes(b));
    lemma_ascii_decode(b);
    vstd::utf8::decode_utf8_encode_utf8(b);
}

/// For an entry stored under a valid hash, an eviction pass treats the
/// entry's file as an entry (not a sidecar), removes with it exactly the
/// sidecar file a write stored beside it (the name `sidecar_path` gives),
/// and leaves that sidecar file, met on its own, to its entry.
pub proof fn law_eviction_removes_stored_sidecar(hash: Seq<char>)
    requires
        valid_hash(hash),
    ensures
        !is_sidecar_file(encode_utf8(hash)),
        sidecar_file(encode_utf8(hash)) == encode_utf8(sidecar_name(hash)),
        is_sidecar_file(encode_utf8(sidecar_name(hash))),
{
    reveal_strlit(".sha256");
    let n = hash.len() as int;
    let sn = sidecar_name(hash);
    assert forall|i: int| 0 <= i < n implies (hash[i] as u32) < 128 && hash[i] != '.' by {
        assert(is_hex_digit(hash[i]));
    }
    assert forall|i: int| 0 <= i < sn.len() implies (sn[i] as u32) < 128 by {
        if i < n {
            assert(sn[i] == hash[i]);
        }
    }
    lemma_ascii_encoding(hash);
    lemma_ascii_encoding(sn);
    let b = encode_utf8(hash);
    let e = encode_utf8(sn);
    assert forall|j: int| 0 <= j < b.len() implies b[j] != 46 by {
        assert(b[j] as u32 == hash[j] as u32);
        assert(is_hex_digit(hash[j]));
    }
    lemma_no_dot(b);
    assert(!has_extension(b));
    assert(sn[n] == '.');
    assert(e[n] as u32 == sn[n] as u32);
    assert(e[n] == 46);
    assert forall|j: int| n < j < e.len() implies e[j] != 46 by {
        assert(e[j] as u32 == sn[j] as u32);
    }
    lemma_last_dot_at(e, n);
    assert(e != seq![46u8, 46u8]) by {
        assert(e.len() == n + 7);
    }
    assert forall|k: int| 0 <= k < 6 implies #[trigger] e[n + 1 + k] as u32 == ".sha256"@[1 + k] as u32 by {
        assert(sn[n + 1 + k] == ".sha256"@[1 + k]);
    }
    let x = ".sha256"@;
    assert(x[1] == 's' && x[2] == 'h' && x[3] == 'a' && x[4] == '2' && x[5] == '5' && x[6] == '6');
    assert(('s' as u32) == 115 && ('h' as u32) == 104 && ('a' as u32) == 97);
    assert(('2' as u32) == 50 && ('5' as u32) == 53 && ('6' as u32) == 54);
    assert(e[n + 1 + 0] as u32 == x[1] as u32);
    assert(e[n + 1 + 1] as u32 == x[2] as u32);
    assert(e[n + 1 + 2] as u32 == x[3] as u32);
    assert(e[n + 1 + 3] as u32 == x[4] as u32);
    assert(e[n + 1 + 4] as u32 == x[5] as u32);
    assert(e[n + 1 + 5] as u32 == x[6] as u32);
    assert(extension_of(e) =~= sha256_ext());
    assert(sidecar_file(b) =~= e) by {
        assert forall|j: int| 0 <= j < e.len() implies sidecar_file(b)[j] == e[j] by {
            if j < n {
                assert(e[j] as u32 == sn[j] as u32);
                assert(b[j] as u32 == hash[j] as u32);
                assert(sn[j] == hash[j]);
            } else {
                assert(e[j] as u32 == sn[j] as u32);
            }
        }
    }
}


/// In an object store, an object eviction pass counts the entry a write
/// stored under a valid hash as an entry, and its digest sidecar as no entry,
/// whatever the key prefix.
pub proof fn law_object_eviction_counts_entries(prefix: Seq<char>, hash: Seq<char>)
    requires
        valid_hash(hash),
    ensures
        !is_sidecar_key(object_key(prefix, hash)),
        is_sidecar_key(object_key(prefix, sidecar_name(hash))),
{
    reveal_strlit(".sha256");
    let key = object_key(prefix, hash);
    let n = hash.len() as int;
    let l = key.len() as int;
    assert forall|i: int| 0 <= i < n implies hash[i] != '.' && hash[i] != '/' by {
        assert(is_hex_digit(hash[i]));
    }
    if key.len() >= 7 {
        let tail = key.skip(l - 7);
        if n >= 7 {
            assert(tail[0] == hash[n - 7]);
            assert(tail[0] != ".sha256"@[0]);
        } else {
            assert(prefix.len() > 0);
            assert(key[l - 1 - n] == '/');
            assert(tail[6 - n] == '/');
            assert(tail[6 - n] != ".sha256"@[6 - n]);
        }
    }
    let sk = object_key(prefix, sidecar_name(hash));
    assert(sk.skip(sk.len() - 7) =~= ".sha256"@);
}

/// A request reaches the store only after every check has passed: its hash
/// is well formed; where failures are tracked, its address was found under
/// the limit; at the Standard and Hardened levels it carried the access
/// token; at the Paranoid level a token review of its bearer token allowed
/// it; and an upload's body agrees with the length it declared.
pub proof fn law_store_reached_only_after_checks(
    policy: AccessPolicy,
    op: Op,
    hash: Seq<char>,
    headers: RequestHeaders,
    body_len: usize,
    rate_limited: Option<bool>,
    review: Option<AuthOutcomeView>,
)
    requires
        policy.admission(op, hash, &headers, body_len, rate_limited, review) is Proceed,
    ensures
        valid_hash(hash),
        policy.tracks_failures ==> rate_limited == Some(false),
        policy.security.rank() >= 1 ==> bearer_token(headers.authorization_bytes()) is Some,
        1 <= policy.security.rank() < 3 ==> bearer_token(headers.authorization_bytes()) == Some(
            policy.access_token@,
        ),
        policy.security.rank() >= 3 ==> policy.has_k8s_client && review == Some(
            AuthOutcomeView::Allowed,
        ),
        op == Op::Put ==> !length_mismatch(policy.security, headers.content_length_bytes(), body_len),
{
}

proof fn lemma_service_account_of(ns: Seq<char>, sa: Seq<char>)
    requires
        forall|i: int| 0 <= i < ns.len() ==> ns[i] != ':',
    ensures
        service_account_of("system:serviceaccount:"@ + ns + ":"@ + sa) == Some((ns, sa)),
{
    reveal_strlit("system:serviceaccount:");
    reveal_strlit(":");
    let p = "system:serviceaccount:"@;
    let user = p + ns + ":"@ + sa;
    assert(user.take(p.len() as int) =~= p);
    let s = user.skip(p.len() as int);
    assert(s =~= ns + ":"@ + sa);
    let n = ns.len() as int;
    assert(s[n] == ':');
    assert forall|j: int| 0 <= j < n implies s[j] != ':' by {
        assert(s[j] == ns[j]);
    }
    let i = choose|i: int| 0 <= i < s.len() && s[i] == ':' && forall|j: int| 0 <= j < i ==> s[j] != ':';
    assert(i == n) by {
        if i < n {
            assert(s[i] == ns[i]);
        } else if i > n {
            assert(s[n] != ':');
        }
    }
    assert(s.take(n) =~= ns);
    assert(s.skip(n + 1) =~= sa);
}

/// A caller that a TokenReview authenticates as the service account `sa` of
/// namespace `ns` is let in exactly when the allowlist is empty or holds
/// `ns`, and is otherwise refused for its namespace; a caller the review
/// does not authenticate is refused whatever its name.
pub proof fn law_review_applies_allowlist(
    ns: Seq<char>,
    sa: Seq<char>,
    allowed: Seq<Seq<char>>,
    authenticated: Option<bool>,
    username: Option<Seq<char>>,
)
    requires
        forall|i: int| 0 <= i < ns.len() ==> ns[i] != ':',
    ensures
        ({
            let reply: ReviewReply = Ok(
                Some((Some(true), Some("system:serviceaccount:"@ + ns + ":"@ + sa))),
            );
            &&& allowed.len() == 0 || allowed.contains(ns) ==> review_result(reply, allowed)
                == (ReviewOutcomeView::Allowed { namespace: ns, service_account: sa })
            &&& allowed.len() > 0 && !allowed.contains(ns) ==> review_result(reply, allowed)
                == (ReviewOutcomeView::ForbiddenNamespace { namespace: ns })
        }),
        authenticated != Some(true) ==> review_result(Ok(Some((authenticated, username))), allowed)
            == ReviewOutcomeView::Unauthenticated,
        ({
            let user = match username {
                Some(u) => u,
                None => Seq::empty(),
            };
            !"system:serviceaccount:"@.is_prefix_of(user) ==> review_result(
                Ok(Some((Some(true), username))),
                allowed,
            ) == ReviewOutcomeView::ApiError("unexpected username format in TokenReview: "@ + user)
        }),
        forall|e: Seq<char>| #[trigger] review_result(Err(e), allowed) == ReviewOutcomeView::ApiError(e),
        review_result(Ok(None), allowed) is ApiError,
{
    lemma_service_account_of(ns, sa);
    let user = match username {
        Some(u) => u,
        None => Seq::empty(),
    };
    let p = "system:serviceaccount:"@;
    if !p.is_prefix_of(user) {
        assert(!(user.len() >= p.len() && user.take(p.len() as int) == p)) by {
            if user.len() >= p.len() && user.take(p.len() as int) == p {
                assert(user.subrange(0, p.len() as int) =~= p);
            }
        }
    }
}

/// Reading a hash whose entry is not in the store is a miss, whatever the
/// store's settings: the read answers `NotFound` for that hash and removes
/// nothing (the disk store and the object store alike).
pub proof fn law_missing_entry_is_a_miss(
    d: DiskCache,
    files: Contents,
    o: ObjectStoreCache,
    objects: Contents,
    hash: Seq<char>,
)
    ensures
        !files.contains_key(d.artifact_of(hash)) ==> disk_get(d, files, hash) == (
            files,
            Err::<Seq<u8>, CacheErrorView>(CacheErrorView::NotFound(hash)),
        ),
        !objects.contains_key(o.artifact_of(hash)) ==> object_get(o, objects, hash) == (
            objects,
            Err::<Seq<u8>, CacheErrorView>(CacheErrorView::NotFound(hash)),
        ),
{
    assert(remove_all(files, Seq::empty()) == files);
    assert(remove_all(objects, Seq::empty()) == objects);
}

/// A fetch that the object store answers with "not found" is a miss for the
/// hash asked for, whatever the store's message and settings and whether a
/// sidecar came back; any other failed request is a store error carrying the
/// store's message.
pub proof fn law_object_not_found_is_a_miss(
    o: ObjectStoreCache,
    hash: Seq<char>,
    f: FailureView,
    sidecar: Option<Seq<u8>>,
)
    ensures
        f.kind == FailureKind::NotFound ==> o.fetched_finish(
            hash,
            Err(FetchFailureView::Request(f)),
            sidecar,
        ).result == Err::<(), CacheErrorView>(CacheErrorView::NotFound(hash)),
        f.kind != FailureKind::NotFound ==> o.fetched_finish(
            hash,
            Err(FetchFailureView::Request(f)),
            sidecar,
        ).result == Err::<(), CacheErrorView>(CacheErrorView::ObjectStore(f.message)),
        o.fetched_finish(hash, Err(FetchFailureView::Request(f)), sidecar).remove.len() == 0,
{
}

/// A disk read that fails with "not found" is a miss for the hash asked for,
/// whatever the message and the store's settings; any other failed read is
/// an I/O error carrying the system's message. Neither removes anything.
pub proof fn law_disk_not_found_is_a_miss(d: DiskCache, hash: Seq<char>, f: FailureView)
    ensures
        f.kind == FailureKind::NotFound ==> d.read_next(hash, Err(f)) == GetNextView::Finish(
            FinishView {
                remove: Seq::empty(),
                result: Err(CacheErrorView::NotFound(hash)),
            },
        ),
        f.kind != FailureKind::NotFound ==> d.read_next(hash, Err(f)) == GetNextView::Finish(
            FinishView {
                remove: Seq::empty(),
                result: Err(CacheErrorView::Io(f.message)),
            },
        ),
{
}

/// Each level is selected by its number, written as one decimal digit, and
/// by its name in lower or upper case; an unset value (the empty text) and a
/// text too long to name a level select `Standard`.
pub proof fn law_level_selected_by_number_and_name(l: SecurityLevel, s: Seq<char>)
    ensures
        level_named(seq![(48 + l.rank()) as char]) == l,
        level_named(
            match l {
                SecurityLevel::Open => "open"@,
                SecurityLevel::Standard => "standard"@,
                SecurityLevel::Hardened => "hardened"@,
                SecurityLevel::Paranoid => "paranoid"@,
            },
        ) == l,
        s.len() == 0 || s.len() > 8 ==> level_named(s) == SecurityLevel::Standard,
        level_named(
            match l {
                SecurityLevel::Open => "OPEN"@,
                SecurityLevel::Standard => "STANDARD"@,
                SecurityLevel::Hardened => "HARDENED"@,
                SecurityLevel::Paranoid => "PARANOID"@,
            },
        ) == l,
{
    reveal_strlit("0");
    reveal_strlit("1");
    reveal_strlit("2");
    reveal_strlit("3");
    reveal_strlit("open");
    reveal_strlit("standard");
    reveal_strlit("hardened");
    reveal_strlit("paranoid");
    reveal_strlit("OPEN");
    reveal_strlit("STANDARD");
    reveal_strlit("HARDENED");
    reveal_strlit("PARANOID");
    let d = seq![(48 + l.rank()) as char];
    assert(ascii_lower(d[0]) == d[0]);
    assert(!lower_eq(d, "open"@) && !lower_eq(d, "standard"@) && !lower_eq(d, "hardened"@));
    assert(!lower_eq(d, "paranoid"@));
    match l {
        SecurityLevel::Open => {
            assert(lower_eq(d, "0"@));
            assert(lower_eq("OPEN"@, "open"@));
        },
        SecurityLevel::Standard => {
            assert(!lower_eq(d, "0"@));
            assert(lower_eq(d, "1"@));
            assert(!lower_eq("standard"@, "open"@));
            assert(lower_eq("STANDARD"@, "standard"@));
        },
        SecurityLevel::Hardened => {
            assert(!lower_eq(d, "0"@) && !lower_eq(d, "1"@));
            assert(lower_eq(d, "2"@));
            assert(!lower_eq("hardened"@, "standard"@) && !lower_eq("hardened"@, "open"@));
            assert(lower_eq("HARDENED"@, "hardened"@));
            assert(!lower_eq("HARDENED"@, "standard"@) && !lower_eq("HARDENED"@, "open"@));
        },
        SecurityLevel::Paranoid => {
            assert(!lower_eq(d, "0"@) && !lower_eq(d, "1"@) && !lower_eq(d, "2"@));
            assert(lower_eq(d, "3"@));
            assert(!lower_eq("paranoid"@, "standard"@) && !lower_eq("paranoid"@, "open"@));
            assert(!lower_eq("paranoid"@, "hardened"@));
            assert(lower_eq("PARANOID"@, "paranoid"@));
            assert(!lower_eq("PARANOID"@, "standard"@) && !lower_eq("PARANOID"@, "open"@));
            assert(!lower_eq("PARANOID"@, "hardened"@));
        },
    }
}

/// The ASCII decimal digits of `n`, without leading zeros.
pub open spec fn decimal_bytes(n: nat) -> Seq<u8>
    decreases n,
{
    if n < 10 {
        seq![(48 + n) as u8]
    } else {
        decimal_bytes(n / 10).push((48 + n % 10) as u8)
    }
}

proof fn lemma_decimal_bytes(n: nat)
    ensures
        decimal_bytes(n).len() > 0,
        forall|i: int| 0 <= i < decimal_bytes(n).len() ==> 48 <= #[trigger] decimal_bytes(n)[i] <= 57,
        all_digits(ascii_chars(decimal_bytes(n))),
        digits_value(ascii_chars(decimal_bytes(n))) == n,
    decreases n,
{
    let b = decimal_bytes(n);
    if n < 10 {
        let c = ascii_chars(b);
        assert(c.drop_last() =~= Seq::<char>::empty());
        assert(digits_value(c.drop_last()) == 0);
    } else {
        let p = decimal_bytes(n / 10);
        lemma_decimal_bytes(n / 10);
        let x = (48 + n % 10) as u8;
        assert(b == p.push(x));
        assert forall|i: int| 0 <= i < b.len() implies 48 <= #[trigger] b[i] <= 57 by {
            if i < p.len() {
                assert(b[i] == p[i]);
            }
        }
        let c = ascii_chars(b);
        assert(c.drop_last() =~= ascii_chars(p));
        assert(c.last() == x as char);
        assert((n / 10) * 10 + n % 10 == n) by (nonlinear_arith);
    }
}

/// At `Hardened` and above an upload whose `Content-Length` header holds the
/// decimal digits of a length `d` is refused exactly when `d` is not the
/// length of its body, in either direction; below `Hardened`, or without
/// the header, the length is not checked. The same holds of any header
/// value that declares a length.
pub proof fn law_declared_length_checked(
    security: SecurityLevel,
    d: nat,
    body_len: usize,
    value: Option<Seq<u8>>,
)
    requires
        d <= usize::MAX,
    ensures
        security.rank() >= 2 ==> (length_mismatch(security, Some(decimal_bytes(d)), body_len) <==> d
            != body_len),
        security.rank() < 2 ==> !length_mismatch(security, value, body_len),
        !length_mismatch(security, None, body_len),
        (value matches Some(v) && exists|i: int|
            0 <= i < v.len() && !(48 <= #[trigger] v[i] <= 57) && !(i == 0 && v[i] == 43))
            ==> !length_mismatch(security, value, body_len),
        security.rank() >= 2 && declared_length(value) is Some ==> (length_mismatch(
            security,
            value,
            body_len,
        ) <==> declared_length(value)->0 != body_len),
{
    lemma_decimal_bytes(d);
    let b = decimal_bytes(d);
    assert(forall|i: int| 0 <= i < b.len() ==> is_visible(#[trigger] b[i]));
    let t = ascii_chars(b);
    assert(header_text(b) == Some(t));
    assert(t[0] != '+');
    assert(decimal_digits(t) == t);
    assert(declared_length(Some(b)) == Some(d));
    if let Some(v) = value {
        if exists|i: int| 0 <= i < v.len() && !(48 <= #[trigger] v[i] <= 57) && !(i == 0 && v[i] == 43) {
            let i = choose|i: int| 0 <= i < v.len() && !(48 <= #[trigger] v[i] <= 57) && !(i == 0 && v[i] == 43);
            if let Some(tx) = header_text(v) {
                assert(tx[i] == v[i] as char);
                let dd = decimal_digits(tx);
                if tx.len() > 0 && tx[0] == '+' {
                    assert(i > 0);
                    assert(dd[i - 1] == tx[i]);
                    assert(!is_digit(dd[i - 1]));
                } else {
                    assert(dd[i] == tx[i]);
                    assert(!is_digit(dd[i]));
                }
            }
        }
    }
}

/// A hash is valid exactly when it is 1 to 128 characters long and each is a
/// decimal digit or a letter `a`-`f` in either case: hashes of digits alone
/// included.
pub proof fn law_valid_hash_is_hex_up_to_128(hash: Seq<char>)
    ensures
        valid_hash(hash) <==> (0 < hash.len() <= 128 && forall|i: int|
            0 <= i < hash.len() ==> {
                let c = #[trigger] hash[i] as u32;
                ||| '0' as u32 <= c <= '9' as u32
                ||| 'a' as u32 <= c <= 'f' as u32
                ||| 'A' as u32 <= c <= 'F' as u32
            }),
{
}
} // verus!
