//! The error taxonomy of the substrate.
//!
//! The fatal classes (out-of-bounds guest access, unresolved symbols,
//! unimplemented selectors, reference-count violations) are never silently
//! absorbed: every operation that can hit one returns it to the caller.
//! `MissingResource` is the one recoverable class: an optional external
//! resource that turned out to be absent.

use vstd::prelude::*;

verus! {

/// Everything that can go wrong inside the substrate.
///
/// Each variant carries the symbol, selector or address involved so a
/// caller can produce a diagnostic before terminating.
#[derive(Debug, Clone, PartialEq, Eq)]
pub enum Error {
    /// A guest memory access `addr .. addr + len` fell outside the arena,
    /// or dereferenced the null address.
    OutOfBounds { addr: u32, len: usize },
    /// The guest arena has no room left for an allocation.
    OutOfMemory,
    /// An imported symbol is in neither export table (strict mode).
    UnresolvedSymbol { symbol: String },
    /// A class name that never resolved to a registered class.
    UnresolvedClass { name: String },
    /// A class was re-registered with a conflicting definition.
    ClassConflict { name: String },
    /// The superclass chain walked during dispatch does not terminate.
    ClassCycle { class: usize },
    /// No class in the receiver's chain implements the selector.
    UnimplementedSelector { receiver: u32, selector: String },
    /// A retain or release on an id that is not a live object, a release
    /// past zero, or a retain that would overflow the count.
    RefcountViolation { object: u32 },
    /// An autorelease with no open pool, or a pool pop without a push.
    PoolImbalance,
    /// A guest return reached the call bridge with no call in flight.
    CallBridgeImbalance,
    /// The object's host payload has the wrong shape for the operation.
    WrongHostObject { object: u32 },
    /// The operation resolved to guest code, which only the external
    /// execution engine can run.
    GuestCallRequired { target: u32 },
    /// An optional external resource was absent; the caller may branch.
    MissingResource,
}

} // verus!
