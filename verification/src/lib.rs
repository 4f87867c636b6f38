//! A compatibility substrate for running foreign guest binaries: a guest
//! address-space arena, a class registry with dynamic message dispatch and
//! reference counting, a dynamic symbol linker with memoized constant
//! exports, and a reentrant host/guest call bridge, together with the
//! string and exception glue built on top of them.

pub mod bridge;
pub mod dyld;
pub mod env;
pub mod error;
pub mod lookup;
pub mod mem;
pub mod ns_exception;
pub mod ns_string;
pub mod objc;
pub mod ui_nib;

use vstd::prelude::*;

verus! {

/// The null guest address. It is never handed out by the allocator and
/// must never be dereferenced.
pub const NULL: u32 = 0;

} // verus!
