//! Errors of the cache stores.
use vstd::prelude::*;

verus! {

/// Why a cache operation failed. Each variant carries the backend's message
/// or the hash of the entry concerned.
#[derive(Debug)]
pub enum CacheError {
    /// A file system operation failed.
    Io(String),
    /// An object store operation failed.
    ObjectStore(String),
    /// No entry is stored under the hash.
    NotFound(String),
    /// An entry is already stored under the hash (write-once stores).
    AlreadyExists(String),
    /// The entry does not match its stored digest.
    Corrupted(String),
}

/// A `CacheError` with its text as characters.
pub enum CacheErrorView {
    Io(Seq<char>),
    ObjectStore(Seq<char>),
    NotFound(Seq<char>),
    AlreadyExists(Seq<char>),
    Corrupted(Seq<char>),
}

impl View for CacheError {
    type V = CacheErrorView;

    open spec fn view(&self) -> CacheErrorView {
        match self {
            CacheError::Io(m) => CacheErrorView::Io(m@),
            CacheError::ObjectStore(m) => CacheErrorView::ObjectStore(m@),
            CacheError::NotFound(h) => CacheErrorView::NotFound(h@),
            CacheError::AlreadyExists(h) => CacheErrorView::AlreadyExists(h@),
            CacheError::Corrupted(h) => CacheErrorView::Corrupted(h@),
        }
    }
}

impl CacheErrorView {
    /// The error's text, as it is displayed.
    pub open spec fn text(self) -> Seq<char> {
        match self {
            CacheErrorView::Io(m) => "IO error: "@ + m,
            CacheErrorView::ObjectStore(m) => "object store error: "@ + m,
            CacheErrorView::NotFound(h) => "entry not found: "@ + h,
            CacheErrorView::AlreadyExists(h) => "entry already exists: "@ + h,
            CacheErrorView::Corrupted(h) => "content integrity check failed for "@ + h,
        }
    }
}

impl CacheError {
    /// The error's text, as it is displayed.
    pub fn message(&self) -> (r: String)
        ensures
            r@ == self@.text(),
    {
        match self {
            CacheError::Io(m) => String::from_str("IO error: ").concat(m.as_str()),
            CacheError::ObjectStore(m) => String::from_str("object store error: ").concat(
                m.as_str(),
            ),
            CacheError::NotFound(h) => String::from_str("entry not found: ").concat(h.as_str()),
            CacheError::AlreadyExists(h) => String::from_str("entry already exists: ").concat(
                h.as_str(),
            ),
            CacheError::Corrupted(h) => String::from_str(
                "content integrity check failed for ",
            ).concat(h.as_str()),
        }
    }
}

/// How a backend operation failed, as far as the stores tell failures apart.
#[derive(Clone, Copy, PartialEq, Eq, Structural, Debug)]
pub enum FailureKind {
    NotFound,
    AlreadyExists,
    Other,
}

/// A failed backend operation: its kind and its message.
pub struct BackendFailure {
    pub kind: FailureKind,
    pub message: String,
}

} // verus!
