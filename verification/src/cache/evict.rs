//! Eviction of old entries: the cutoff time and, entry by entry, what goes.
//!
//! Times are nanoseconds since the Unix epoch (negative before it), the range
//! of `SystemTime` on Unix: whole seconds in an `i64`.
use vstd::prelude::*;
use crate::cache::errors::{CacheError, CacheErrorView};

verus! {

pub open spec fn nanos_per_sec() -> int {
    1_000_000_000
}

/// The earliest time a `SystemTime` holds.
pub open spec fn min_time() -> int {
    (i64::MIN as int) * nanos_per_sec()
}

/// Just past the latest time a `SystemTime` holds.
pub open spec fn time_bound() -> int {
    (i64::MAX as int + 1) * nanos_per_sec()
}

pub open spec fn is_system_time(t: i128) -> bool {
    min_time() <= t < time_bound()
}

/// The most nanoseconds a `Duration` holds.
pub open spec fn max_duration_nanos() -> int {
    (u64::MAX as int) * nanos_per_sec() + (nanos_per_sec() - 1)
}

/// `now - ttl`, or the Unix epoch (0) where that is earlier than any
/// `SystemTime` (`checked_sub(ttl).unwrap_or(UNIX_EPOCH)`).
pub open spec fn cutoff_for(now: int, ttl_nanos: nat) -> int {
    let c = now - ttl_nanos;
    if c >= min_time() {
        c
    } else {
        0
    }
}

/// The time up to which entries are evicted: `ttl_nanos` (the time to live,
/// as `Duration::as_nanos` gives it) before `now`.
pub fn eviction_cutoff(now: i128, ttl_nanos: u128) -> (r: i128)
    requires
        is_system_time(now),
        ttl_nanos <= max_duration_nanos(),
    ensures
        r == cutoff_for(now as int, ttl_nanos as nat),
{
    let ttl = ttl_nanos as i128;
    let c = now - ttl;
    let min: i128 = (i64::MIN as i128) * 1_000_000_000;
    if c >= min {
        c
    } else {
        0
    }
}

// ---------------------------------------------------------------------------
// File names, as bytes.
/// The index of the last `.` in `name`, -1 where it holds none.
pub open spec fn last_dot(name: Seq<u8>) -> int
    decreases name.len(),
{
    if name.len() == 0 {
        -1
    } else if name.last() == 46 {
        name.len() - 1
    } else {
        last_dot(name.drop_last())
    }
}

/// Whether the file name has an extension (`Path::extension`): it holds a
/// `.` after its first byte, and it is not `..`.
pub open spec fn has_extension(name: Seq<u8>) -> bool {
    name != seq![46u8, 46u8] && last_dot(name) > 0
}

pub open spec fn extension_of(name: Seq<u8>) -> Seq<u8> {
    name.skip(last_dot(name) + 1)
}

/// `Path::file_stem`: the name without its extension.
pub open spec fn file_stem(name: Seq<u8>) -> Seq<u8> {
    if has_extension(name) {
        name.take(last_dot(name))
    } else {
        name
    }
}

/// `sha256`
pub open spec fn sha256_ext() -> Seq<u8> {
    seq![115u8, 104u8, 97u8, 50u8, 53u8, 54u8]
}

/// Whether the file is a digest sidecar: its extension is `sha256`.
pub open spec fn is_sidecar_file(name: Seq<u8>) -> bool {
    has_extension(name) && extension_of(name) == sha256_ext()
}

/// `Path::with_extension("sha256")` of the file name.
pub open spec fn sidecar_file(name: Seq<u8>) -> Seq<u8> {
    file_stem(name) + seq![46u8] + sha256_ext()
}

fn find_last_dot(name: &[u8]) -> (r: Option<usize>)
    ensures
        match r {
            Some(i) => i == last_dot(name@) && i < name@.len(),
            None => last_dot(name@) == -1,
        },
{
    let n = name.len();
    let mut i: usize = n;
    assert(name@.subrange(0, n as int) =~= name@);
    while i > 0
        invariant
            n == name@.len(),
            i <= n,
            last_dot(name@) == last_dot(name@.subrange(0, i as int)),
        decreases i,
    {
        let ghost p = name@.subrange(0, i as int);
        assert(p.drop_last() =~= name@.subrange(0, i - 1));
        if name[i - 1] == 46 {
            return Some(i - 1);
        }
        i = i - 1;
    }
    None
}

fn bytes_eq(a: &[u8], from: usize, exp: &[u8]) -> (r: bool)
    requires
        from <= a@.len(),
    ensures
        r == (a@.skip(from as int) == exp@),
{
    let ghost b = exp@;
    let n = a.len();
    let m = exp.len();
    if n - from != m {
        assert(a@.skip(from as int).len() != b.len());
        return false;
    }
    let mut i: usize = 0;
    while i < m
        invariant
            n == a@.len(),
            m == exp@.len(),
            b == exp@,
            from <= n,
            n - from == m,
            i <= m,
            forall|j: int| 0 <= j < i ==> a@[from + j] == b[j],
        decreases m - i,
    {
        if a[from + i] != exp[i] {
            assert(a@.skip(from as int)[i as int] != b[i as int]);
            return false;
        }
        i = i + 1;
    }
    assert(a@.skip(from as int) =~= b);
    true
}

/// What to do with a directory entry.
pub enum EntryAction {
    Keep,
    /// Remove the entry's file and its sidecar (both names in the directory).
    Remove { artifact: Vec<u8>, sidecar: Vec<u8> },
}

/// An eviction pass through the entries of a cache directory.
pub struct DiskEviction {
    cutoff: i128,
    count: u64,
}

impl DiskEviction {
    pub closed spec fn spec_cutoff(&self) -> int {
        self.cutoff as int
    }

    pub closed spec fn evicted(&self) -> nat {
        self.count as nat
    }

    pub fn new(cutoff: i128) -> (r: DiskEviction)
        ensures
            r.spec_cutoff() == cutoff,
            r.evicted() == 0,
    {
        DiskEviction { cutoff, count: 0 }
    }

    /// The entries evicted so far.
    pub fn count(&self) -> (r: u64)
        ensures
            r == self.evicted(),
    {
        self.count
    }

    /// Visits the file `name`, last modified at `modified` (`None` where that
    /// could not be read): sidecars are left to their entries, and an entry
    /// modified at or before the cutoff is removed with its sidecar and counted.
    pub fn visit(&mut self, name: &[u8], modified: Option<i128>) -> (r: EntryAction)
        requires
            old(self).evicted() < u64::MAX,
        ensures
            final(self).spec_cutoff() == old(self).spec_cutoff(),
            if !is_sidecar_file(name@) && modified is Some && modified->0 <= old(
                self,
            ).spec_cutoff() {
                &&& r matches EntryAction::Remove { artifact, sidecar } && artifact@ == name@
                    && sidecar@ == sidecar_file(name@)
                &&& final(self).evicted() == old(self).evicted() + 1
            } else {
                &&& r is Keep
                &&& final(self).evicted() == old(self).evicted()
            },
    {
        let dot = find_last_dot(name);
        let is_dotdot = name.len() == 2 && name[0] == 46 && name[1] == 46;
        proof {
            if name@.len() == 2 && name@[0] == 46 && name@[1] == 46 {
                assert(name@ =~= seq![46u8, 46u8]);
            }
        }
        let ext: [u8; 6] = [115, 104, 97, 50, 53, 54];
        assert(ext@ =~= sha256_ext());
        let stem_len: usize = match dot {
            Some(i) if i > 0 && !is_dotdot => i,
            _ => name.len(),
        };
        let sidecar_ext = match dot {
            Some(i) if i > 0 && !is_dotdot => bytes_eq(name, i + 1, ext.as_slice()),
            _ => false,
        };
        let evict = match modified {
            Some(t) => !sidecar_ext && t <= self.cutoff,
            None => false,
        };
        if !evict {
            return EntryAction::Keep;
        }
        let mut artifact: Vec<u8> = Vec::new();
        let mut sidecar: Vec<u8> = Vec::new();
        let n = name.len();
        let mut i: usize = 0;
        while i < n
            invariant
                n == name@.len(),
                stem_len <= n,
                i <= n,
                artifact@ == name@.subrange(0, i as int),
                i <= stem_len ==> sidecar@ == name@.subrange(0, i as int),
                i > stem_len ==> sidecar@ == name@.subrange(0, stem_len as int),
            decreases n - i,
        {
            artifact.push(name[i]);
            if i < stem_len {
                sidecar.push(name[i]);
            }
            proof {
                assert(artifact@ =~= name@.subrange(0, i + 1));
                if i < stem_len {
                    assert(sidecar@ =~= name@.subrange(0, i + 1));
                }
            }
            i = i + 1;
        }
        sidecar.push(46);
        let mut j: usize = 0;
        while j < 6
            invariant
                ext@ == sha256_ext(),
                j <= 6,
                sidecar@ == name@.subrange(0, stem_len as int) + seq![46u8] + ext@.take(j as int),
                stem_len <= name@.len(),
            decreases 6 - j,
        {
            sidecar.push(ext[j]);
            proof {
                assert(ext@.take(j + 1) =~= ext@.take(j as int).push(ext@[j as int]));
            }
            j = j + 1;
        }
        proof {
            assert(artifact@ =~= name@);
            assert(ext@.take(6) =~= ext@);
            assert(name@.subrange(0, stem_len as int) =~= file_stem(name@));
        }
        self.count = self.count + 1;
        EntryAction::Remove { artifact, sidecar }
    }
}

// ---------------------------------------------------------------------------
// Object store.
/// Whether an object key ends with `.sha256`: it is a digest sidecar.
pub open spec fn is_sidecar_key(key: Seq<char>) -> bool {
    key.len() >= 7 && key.skip(key.len() - 7) == ".sha256"@
}

/// An eviction pass through the objects of a cache.
pub struct ObjectEviction {
    cutoff: i128,
    to_delete: Vec<String>,
    artifact_count: u64,
}

impl ObjectEviction {
    pub closed spec fn spec_cutoff(&self) -> int {
        self.cutoff as int
    }

    /// The keys to delete once the listing is through, in listing order.
    pub closed spec fn doomed(&self) -> Seq<Seq<char>> {
        self.to_delete.deep_view()
    }

    /// The entries (not sidecars) among them.
    pub closed spec fn evicted(&self) -> nat {
        self.artifact_count as nat
    }

    pub fn new(cutoff: i128) -> (r: ObjectEviction)
        ensures
            r.spec_cutoff() == cutoff,
            r.doomed() == Seq::<Seq<char>>::empty(),
            r.evicted() == 0,
    {
        let r = ObjectEviction { cutoff, to_delete: Vec::new(), artifact_count: 0 };
        assert(r.doomed() =~= Seq::<Seq<char>>::empty());
        r
    }

    /// The entries among the keys to delete so far.
    pub fn count(&self) -> (r: u64)
        ensures
            r == self.evicted(),
    {
        self.artifact_count
    }

    /// Visits the object `key`, last modified at `last_modified`: every object
    /// modified at or before the cutoff is to be deleted (the answer says
    /// whether this one is), and counted unless it is a sidecar.
    pub fn visit(&mut self, key: String, last_modified: i128) -> (doomed: bool)
        requires
            old(self).evicted() < u64::MAX,
        ensures
            doomed == (last_modified <= old(self).spec_cutoff()),
            final(self).spec_cutoff() == old(self).spec_cutoff(),
            last_modified <= old(self).spec_cutoff() ==> {
                &&& final(self).doomed() == old(self).doomed().push(key@)
                &&& final(self).evicted() == old(self).evicted() + if is_sidecar_key(key@) {
                    0nat
                } else {
                    1nat
                }
            },
            last_modified > old(self).spec_cutoff() ==> {
                &&& final(self).doomed() == old(self).doomed()
                &&& final(self).evicted() == old(self).evicted()
            },
    {
        if last_modified <= self.cutoff {
            if !ends_with_sha256(key.as_str()) {
                self.artifact_count = self.artifact_count + 1;
            }
            let ghost before = self.to_delete.deep_view();
            let ghost k = key@;
            self.to_delete.push(key);
            assert(self.to_delete.deep_view() =~= before.push(k));
            true
        } else {
            false
        }
    }

    /// Ends the pass once the listing has ended: `listing` is `Ok` where it
    /// ran to its end and `Err` with the store's message where it broke off.
    /// A complete listing gives the keys to delete and the number of entries
    /// among them; a broken one deletes nothing and is an object store error.
    pub fn finish(self, listing: Result<(), String>) -> (r: (Vec<String>, Result<u64, CacheError>))
        ensures
            listing is Ok ==> {
                &&& r.0.deep_view() == self.doomed()
                &&& r.1 == Ok::<u64, CacheError>(self.evicted() as u64)
            },
            listing matches Err(m) ==> {
                &&& r.0@.len() == 0
                &&& r.1 matches Err(e) && e@ == CacheErrorView::ObjectStore(m@)
            },
    {
        match listing {
            Ok(()) => (self.to_delete, Ok(self.artifact_count)),
            Err(m) => (Vec::new(), Err(CacheError::ObjectStore(m))),
        }
    }
}

fn ends_with_sha256(key: &str) -> (r: bool)
    ensures
        r == is_sidecar_key(key@),
{
    let suffix = ".sha256";
    proof {
        reveal_strlit(".sha256");
    }
    let n = key.unicode_len();
    if n < 7 {
        return false;
    }
    let mut i: usize = 0;
    while i < 7
        invariant
            n == key@.len(),
            n >= 7,
            suffix@ == ".sha256"@,
            suffix@.len() == 7,
            i <= 7,
            forall|j: int| 0 <= j < i ==> key@[n - 7 + j] == suffix@[j],
        decreases 7 - i,
    {
        if key.get_char(n - 7 + i) != suffix.get_char(i) {
            assert(key@.skip(n - 7)[i as int] != suffix@[i as int]);
            return false;
        }
        i = i + 1;
    }
    assert(key@.skip(n - 7) =~= suffix@);
    true
}

} // verus!
