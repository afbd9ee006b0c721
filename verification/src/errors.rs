use vstd::prelude::*;

verus! {

/// Failure taxonomy of the binding layer.
///
/// Every error surfaces to the immediate caller of `bind`/`acquire`;
/// none is swallowed or auto-corrected.
#[derive(Clone, Copy, PartialEq, Eq, Structural, Debug)]
pub enum CacheError {
    /// The address is zero (the reserved "unbound" sentinel) or was never
    /// allocated in the backing storage.  A caller bug, rejected fast.
    InvalidAddress,
    /// The page's stored type tag disagrees with the requested page type.
    /// Indicates corruption or a stale reference upstream; never coerced.
    TypeMismatch,
    /// The backing storage failed a read or write.  Propagated verbatim;
    /// the cache performs no internal retry.
    IoError,
    /// No free or evictable page slot is available, or the requested access
    /// mode conflicts with pins already held.  This is the non-blocking
    /// admission-control answer where a blocking pool would suspend.
    CapacityExhausted,
}

} // verus!
